use vlazba::jvokaha::{jvokaha, jvokaha2};
use vlazba::LujvoError;

#[test]
fn test_valid_lujvo_bramlatu() {
    assert_eq!(jvokaha("bramlatu").unwrap(), vec!["bra", "mlatu"]);
}

#[test]
fn test_valid_lujvo_toirbroda() {
    assert_eq!(jvokaha("toirbroda").unwrap(), vec!["toi", "r", "broda"]);
}

#[test]
fn test_valid_lujvo_ca_irgau() {
    assert_eq!(jvokaha("ca'irgau").unwrap(), vec!["ca'i", "r", "gau"]);
}

#[test]
fn test_valid_lujvo_with_y_hyphen() {
    assert_eq!(jvokaha("klamyseltru").unwrap(), vec!["klam", "y", "sel", "tru"]);
}

#[test]
fn test_valid_lujvo_with_nr_hyphen() {
    assert!(jvokaha("toinrbroda").is_err());
}

#[test]
fn test_invalid_klasr() {
    assert!(jvokaha("klasr").is_err());
}

#[test]
fn test_invalid_empty() {
    assert!(jvokaha("").is_err());
}

#[test]
fn test_invalid_cyrillic() {
    assert!(jvokaha("щя").is_err());
}

#[test]
fn test_invalid_multibyte() {
    // Test with a multibyte character sequence
    assert!(jvokaha("café").is_err());
    // Test with a Japanese character
    assert!(jvokaha("日本語").is_err());
    // Test with emoji
    assert!(jvokaha("😀").is_err());
}

#[test]
fn test_invalid_short_lujvo() {
    assert!(jvokaha("la").is_err());
}

#[test]
fn test_invalid_rafsi_sequence() {
    assert!(jvokaha("klamrseltru").is_err());
}

#[test]
fn test_jvokaha2_valid() {
    let result = jvokaha2("bramlatu").unwrap();
    assert_eq!(result, vec!["bra", "mlatu"]);
}

#[test]
fn test_jvokaha2_invalid() {
    assert!(jvokaha2("invalid").is_err());
}

#[test]
fn test_unparsable_error_kind() {
    assert!(matches!(jvokaha("klasr"), Err(LujvoError::UnparsableInput)));
    assert!(matches!(jvokaha2("invalid"), Err(LujvoError::UnparsableInput)));
}

#[test]
fn test_too_few_fragments_error_kind() {
    // a bare five-letter root decomposes to one fragment, too few to be a compound
    assert!(matches!(jvokaha("bakfu"), Err(LujvoError::InsufficientComponents)));
    assert!(matches!(jvokaha(""), Err(LujvoError::InsufficientComponents)));
}

#[test]
fn test_malformed_names_canonical_form() {
    // decomposable, but the canonical surface form carries an r-hyphen
    match jvokaha("toibroda") {
        Err(LujvoError::MalformedCanonicalForm { correct }) => {
            assert_eq!(correct, "toirbroda");
        }
        other => panic!("expected a malformed-form error, got {:?}", other),
    }
}

#[test]
fn test_round_trip_of_accepted_words() {
    // every accepted decomposition re-joins to the input verbatim
    for w in ["bramlatu", "toirbroda", "ca'irgau", "klamyseltru", "slakygau"] {
        let tokens = jvokaha(w).unwrap();
        assert_eq!(tokens.concat(), w);
    }
}

#[test]
fn test_valid_lujvo_kalgahu() {
    assert_eq!(jvokaha("kalga'u").unwrap(), vec!["kal", "ga'u"]);
}
