use vlazba::construct::{is_tosmabru, normalize};
use vlazba::generate::jvozba;
use vlazba::shape::is_cmevla;
use vlazba::tools::RafsiOptions;
use vlazba::Catalog;

fn plain_options(exp_rafsi: bool) -> RafsiOptions<'static> {
    RafsiOptions {
        exp_rafsi,
        custom_cmavo: None,
        custom_cmavo_exp: None,
        custom_gismu: None,
        custom_gismu_exp: None,
    }
}

#[test]
fn test_jvozba_klama_gasnu() {
    let input = vec!["klama".to_string(), "gasnu".to_string()];
    let options = plain_options(true);
    let result = jvozba(&input, false, false, &options);

    assert!(
        !result.is_empty(),
        "jvozba should return at least one result"
    );
    assert_eq!(result[0].lujvo, "klagau", "First result should be 'klagau'");
}

#[test]
fn test_jvozba_single_word() {
    let input = vec!["klama".to_string()];
    let options = plain_options(true);
    let result = jvozba(&input, false, false, &options);
    assert!(result.is_empty(), "Single word should return empty result");
}

#[test]
fn test_jvozba_empty_input() {
    let input: Vec<String> = vec![];
    let options = plain_options(true);
    let result = jvozba(&input, false, false, &options);
    assert!(result.is_empty(), "Empty input should return empty result");
}

#[test]
fn test_jvozba_experimental_rafsi() {
    let input = vec!["klama".to_string(), "gasnu".to_string()];
    let options = plain_options(true);
    let result = jvozba(&input, false, false, &options);
    assert!(!result.is_empty(), "Should include experimental rafsi");
}

#[test]
fn test_jvozba_custom_gismu() {
    let mut custom_gismu = Catalog::new();
    custom_gismu.insert("klama", vec!["qla".to_string()]);
    let mut custom_gismu_exp = Catalog::new();
    custom_gismu_exp.insert("gasnu", vec!["gasn".to_string()]);

    let input = vec!["klama".to_string(), "gasnu".to_string()];
    let options = RafsiOptions {
        exp_rafsi: true,
        custom_cmavo: None,
        custom_cmavo_exp: None,
        custom_gismu: Some(&custom_gismu),
        custom_gismu_exp: Some(&custom_gismu_exp),
    };

    let result = jvozba(&input, false, false, &options);
    assert!(!result.is_empty(), "Should use custom gismu rafsi");
    assert!(
        result.iter().any(|r| r.lujvo == "qlagasnu"),
        "Expected custom rafsi combination"
    );
}

#[test]
fn test_is_tosmabru() {
    // Test a valid tosmabru case
    let rafsi = "tos";
    let rest = vec!["mabru".to_string()];
    assert!(
        is_tosmabru(rafsi, &rest),
        "'tosmabru' should be a valid tosmabru"
    );

    // Test invalid case
    let rafsi = "bad";
    let rest = vec!["example".to_string()];
    assert!(
        !is_tosmabru(rafsi, &rest),
        "Invalid tosmabru case should return false"
    );
}

#[test]
fn test_normalize() {
    let input = vec!["slak".to_string(), "gau".to_string()];
    let result = normalize(&input).unwrap();
    assert_eq!(
        result,
        vec!["slak", "y", "gau"],
        "Normalization should insert y-hyphen"
    );
}

#[test]
fn test_normalize_error() {
    let input = vec!["klama".to_string()];
    let result = normalize(&input);
    assert!(result.is_err(), "Normalizing single word should error");
}

#[test]
fn test_is_cmevla() {
    assert!(is_cmevla("klaman"), "Should recognize cmevla");
    assert!(!is_cmevla("klama"), "Should recognize non-cmevla");
}

#[test]
fn test_scores_sorted_ascending() {
    let input = vec!["klama".to_string(), "gasnu".to_string()];
    let options = plain_options(true);
    let result = jvozba(&input, false, false, &options);
    assert!(result.len() > 1);
    for pair in result.windows(2) {
        assert!(pair[0].score <= pair[1].score);
    }
}

#[test]
fn test_forbid_cmevla_filters_consonant_finals() {
    let input = vec!["barda".to_string(), "mlatu".to_string()];
    let options = plain_options(false);
    let unfiltered = jvozba(&input, false, false, &options);
    assert!(unfiltered.iter().any(|r| is_cmevla(&r.lujvo)));
    let filtered = jvozba(&input, false, true, &options);
    assert!(!filtered.is_empty());
    for r in &filtered {
        assert!(!is_cmevla(&r.lujvo));
    }
}

#[test]
fn test_forbid_la_lai_doi_filters_banned_names() {
    let mut custom_gismu = Catalog::new();
    custom_gismu.insert("klama", vec!["lai".to_string()]);
    custom_gismu.insert("gasnu", vec!["dot".to_string()]);
    let options = RafsiOptions {
        exp_rafsi: false,
        custom_cmavo: None,
        custom_cmavo_exp: None,
        custom_gismu: Some(&custom_gismu),
        custom_gismu_exp: None,
    };
    let input = vec!["klama".to_string(), "gasnu".to_string()];
    let unfiltered = jvozba(&input, false, false, &options);
    assert!(unfiltered
        .iter()
        .any(|r| is_cmevla(&r.lujvo) && r.lujvo.contains("lai")));
    let filtered = jvozba(&input, true, false, &options);
    for r in &filtered {
        assert!(!(is_cmevla(&r.lujvo) && r.lujvo.contains("lai")));
    }
}

#[test]
fn test_jvozba_unrecognized_word_empty() {
    // an unrecognized word has no candidates, collapsing the product
    let options = plain_options(true);
    let input = vec!["klama".to_string(), "xanto".to_string()];
    assert!(jvozba(&input, false, false, &options).is_empty());
    let input = vec!["xanto".to_string(), "gasnu".to_string()];
    assert!(jvozba(&input, false, false, &options).is_empty());
}

#[test]
fn test_normalize_two_vowel_fragments_r_hyphen() {
    let input = vec!["toi".to_string(), "broda".to_string()];
    let result = normalize(&input).unwrap();
    assert_eq!(result, vec!["toi", "r", "broda"]);
}

#[test]
fn test_normalize_n_hyphen_before_r_initial() {
    let input = vec!["toi".to_string(), "rod".to_string()];
    let result = normalize(&input).unwrap();
    assert_eq!(result, vec!["toi", "n", "rod"]);
}

#[test]
fn test_normalize_tosmabru_takes_y() {
    let input = vec!["tos".to_string(), "mabru".to_string()];
    let result = normalize(&input).unwrap();
    assert_eq!(result, vec!["tos", "y", "mabru"]);
}
