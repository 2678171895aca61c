use vlazba::generate::create_every_possibility;
use vlazba::jvokaha::jvokaha;
use vlazba::scoring::get_lujvo_score;
use vlazba::tools::{
    get_candid, reconstruct_lujvo, search_selrafsi_from_rafsi2, RafsiOptions,
};
use vlazba::LujvoError;

fn plain_options(exp_rafsi: bool) -> RafsiOptions<'static> {
    RafsiOptions {
        exp_rafsi,
        custom_cmavo: None,
        custom_cmavo_exp: None,
        custom_gismu: None,
        custom_gismu_exp: None,
    }
}

#[test]
fn test_reconstruct_lujvo_basic() {
    let options = plain_options(false);
    let result = reconstruct_lujvo("bramlatu", true, &options).unwrap();
    assert_eq!(result, "bramlatu");
    let options = plain_options(false);
    let result = reconstruct_lujvo("bardymlatu", true, &options).unwrap();
    assert_eq!(result, "bramlatu");
}

#[test]
fn test_reconstruct_lujvo_with_y_hyphen() {
    let options = plain_options(false);
    let result = reconstruct_lujvo("klamyseltru", true, &options).unwrap();
    assert_eq!(result, "klaseltru");
}

#[test]
fn test_reconstruct_lujvo_with_r_hyphen() {
    let options = plain_options(false);
    let result = reconstruct_lujvo("toirbroda", true, &options).unwrap();
    assert_eq!(result, "toirbroda");
}

#[test]
fn test_reconstruct_lujvo_with_apostrophe() {
    let options = plain_options(false);
    let result = reconstruct_lujvo("ca'irgau", true, &options).unwrap();
    assert_eq!(result, "ca'irgau");
}

#[test]
fn test_reconstruct_invalid_lujvo() {
    let options = plain_options(false);
    assert!(reconstruct_lujvo("invalid", false, &options).is_err());
}

#[test]
fn test_reconstruct_empty_string() {
    let options = plain_options(false);
    assert!(reconstruct_lujvo("", false, &options).is_err());
}

#[test]
fn test_reconstruct_unknown_fragments_no_candidates() {
    // decomposes cleanly, but neither fragment maps to a root word
    let options = plain_options(false);
    assert!(matches!(
        reconstruct_lujvo("batpib", false, &options),
        Err(LujvoError::NoCandidates)
    ));
}

#[test]
fn test_reconstruct_output_decomposes_again() {
    let options = plain_options(false);
    for w in ["bramlatu", "bardymlatu", "klamyseltru", "toirbroda"] {
        let rebuilt = reconstruct_lujvo(w, true, &options).unwrap();
        assert!(jvokaha(&rebuilt).is_ok());
    }
}

#[test]
fn test_get_candid_lists() {
    let options = plain_options(false);
    assert_eq!(get_candid("klama", false, &options), vec!["kla", "klam"]);
    assert_eq!(
        get_candid("klama", true, &options),
        vec!["kla", "klama", "klam"]
    );
    assert_eq!(get_candid("se", false, &options), vec!["sel"]);
    // the reserved chop: "broda" never contributes "brod"
    assert_eq!(get_candid("broda", false, &options), vec!["rod"]);
    // a word neither lookup finds gets no candidates at all
    assert!(get_candid("xanto", false, &options).is_empty());
    assert!(get_candid("xanto", true, &options).is_empty());
}

#[test]
fn test_search_selrafsi_mappings() {
    let options = plain_options(false);
    assert_eq!(
        search_selrafsi_from_rafsi2("bard", &options).unwrap(),
        "barda"
    );
    assert_eq!(search_selrafsi_from_rafsi2("bra", &options).unwrap(), "barda");
    assert_eq!(search_selrafsi_from_rafsi2("sel", &options).unwrap(), "se");
    assert_eq!(search_selrafsi_from_rafsi2("tru", &options).unwrap(), "turni");
    assert_eq!(
        search_selrafsi_from_rafsi2("mlatu", &options).unwrap(),
        "mlatu"
    );
    assert!(search_selrafsi_from_rafsi2("pib", &options).is_none());
    // the vowel completion tests each vowel for a real catalog hit
    assert_eq!(search_selrafsi_from_rafsi2("gasn", &options).unwrap(), "gasnu");
    assert_eq!(search_selrafsi_from_rafsi2("turn", &options).unwrap(), "turni");
    // a four-letter fragment with no completion falls through to the scans
    assert!(search_selrafsi_from_rafsi2("zvag", &options).is_none());
}

#[test]
fn test_create_every_possibility_orders() {
    let aa = vec![
        vec!["a".to_string(), "b".to_string()],
        vec!["c".to_string()],
    ];
    let combos = create_every_possibility(aa);
    assert_eq!(combos, vec![vec!["a", "c"], vec!["b", "c"]]);
    let none: Vec<Vec<String>> = Vec::new();
    assert_eq!(create_every_possibility(none), vec![Vec::<String>::new()]);
}

#[test]
fn test_score_formula_values() {
    let toks = vec!["kla".to_string(), "gau".to_string()];
    assert_eq!(get_lujvo_score(&toks), 5847);
    let toks = vec!["slak".to_string(), "y".to_string(), "gau".to_string()];
    assert_eq!(get_lujvo_score(&toks), 7977);
    let toks = vec![
        "klam".to_string(),
        "y".to_string(),
        "sel".to_string(),
        "tru".to_string(),
    ];
    assert_eq!(get_lujvo_score(&toks), 10937);
}
