use yogurt::settings::{glossary_path, Settings, MAX_KEYTERMS, MAX_KEYTERM_LEN};

#[test]
fn keyterms_trims_dedupes_and_skips_comments() {
    let s = Settings {
        glossary: "  Telepatia \n# a comment\n\nDatadog\nTelepatia\n".into(),
    };
    assert_eq!(s.keyterms(), vec!["Telepatia", "Datadog"]);
}

#[test]
fn empty_glossary_yields_no_prompt() {
    let s = Settings {
        glossary: "\n  \n# only comments\n".into(),
    };
    assert!(s.keyterms().is_empty());
    assert!(s.llm_prompt().is_none());
}

#[test]
fn long_terms_clamped_to_50_chars() {
    let long = "a".repeat(80);
    let s = Settings { glossary: long };
    assert_eq!(s.keyterms()[0].chars().count(), MAX_KEYTERM_LEN);
}

#[test]
fn keyterms_stop_at_the_limit() {
    let mut glossary = String::new();
    for i in 0..MAX_KEYTERMS + 5 {
        glossary.push_str(&format!("term {i}\n"));
    }
    let terms = Settings { glossary }.keyterms();
    assert_eq!(terms.len(), MAX_KEYTERMS);
    assert_eq!(terms[MAX_KEYTERMS - 1], "term 999");
}

#[test]
fn long_terms_that_agree_in_front_are_one() {
    let front = "x".repeat(50);
    let s = Settings { glossary: format!("{front}1\n{front}2\n\u{3000}{front}") };
    assert_eq!(s.keyterms(), vec![front]);
}

#[test]
fn the_prompt_names_the_terms() {
    let s = Settings { glossary: "Datadog\nTelepatia".into() };
    let prompt = s.llm_prompt().unwrap();
    assert!(prompt.contains("Datadog"));
    assert!(prompt.contains("Telepatia"));
}

#[test]
fn the_glossary_is_a_file_below_the_home() {
    assert_eq!(glossary_path("/home/ana"), "/home/ana/.yogurt/glossary.txt");
    assert_eq!(glossary_path(""), ".yogurt/glossary.txt");
    assert_eq!(Settings::load(Some("Datadog\n".into())).glossary, "Datadog\n");
    assert_eq!(Settings::load(None).glossary, "");
}
