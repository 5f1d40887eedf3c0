use quote_server::tags::{contains_text, dedup_texts, normalize_tag, normalize_tags};

fn strings(items: &[&str]) -> Vec<String> {
    items.iter().map(|s| s.to_string()).collect()
}

#[test]
fn normalize_tag_trims_and_lowercases() {
    assert_eq!(normalize_tag("  ALPHA \n"), "alpha");
    assert_eq!(normalize_tag("Beta"), "beta");
    assert_eq!(normalize_tag("\tMiXed Case\u{a0}"), "mixed case");
}

#[test]
fn normalize_tag_of_blank_is_empty() {
    assert_eq!(normalize_tag(""), "");
    assert_eq!(normalize_tag("   "), "");
    assert_eq!(normalize_tag(" \t\r\n"), "");
}

#[test]
fn normalize_tag_keeps_inner_space() {
    assert_eq!(normalize_tag("  Knock  Knock "), "knock  knock");
}

#[test]
fn normalize_tag_lowercases_beyond_ascii() {
    assert_eq!(normalize_tag("ÉCOLE"), "école");
    assert_eq!(normalize_tag("ΑΒΓ"), "αβγ");
}

#[test]
fn normalize_tags_drops_empty_and_repeated() {
    let raw = strings(&["Alpha", "", "  ", "beta", " ALPHA ", "Beta", "gamma"]);
    assert_eq!(normalize_tags(&raw), strings(&["alpha", "beta", "gamma"]));
}

#[test]
fn normalize_tags_of_nothing_is_empty() {
    assert!(normalize_tags(&Vec::new()).is_empty());
    assert!(normalize_tags(&strings(&["", "  "])).is_empty());
}

#[test]
fn normalize_tags_is_idempotent_on_examples() {
    let raw = strings(&[" Alpha", "BETA ", "alpha", "", "İstanbul", "ΣΟΦΟΣ", "Straße"]);
    let once = normalize_tags(&raw);
    let twice = normalize_tags(&once);
    assert_eq!(once, twice);
}

#[test]
fn dedup_texts_keeps_first_occurrences() {
    let list = strings(&["b", "a", "b", "c", "a"]);
    assert_eq!(dedup_texts(&list), strings(&["b", "a", "c"]));
    assert!(dedup_texts(&Vec::new()).is_empty());
}

#[test]
fn contains_text_finds_only_what_is_there() {
    let list = strings(&["alpha", "beta"]);
    assert!(contains_text(&list, &"beta".to_string()));
    assert!(!contains_text(&list, &"Beta".to_string()));
    assert!(!contains_text(&Vec::new(), &"beta".to_string()));
}
