use quote_server::quote::{
    add_quote_to_db, get_quote_by_id_from_db, get_random_quote_id_from_db,
    get_tagged_quote_id_from_db, load_quotes, matching_quote_ids, JsonQuote, Quote, QuoteError,
    QuoteStore, TagMatch,
};

fn strings(items: &[&str]) -> Vec<String> {
    items.iter().map(|s| s.to_string()).collect()
}

fn quote(id: &str) -> Quote {
    Quote {
        id: id.to_string(),
        whos_there: format!("{} who", id),
        answer_who: format!("{} answer", id),
        source: "test".to_string(),
    }
}

fn record(id: &str, tags: &[&str]) -> JsonQuote {
    JsonQuote::new(&quote(id), strings(tags))
}

fn found(m: TagMatch) -> Option<String> {
    match m {
        TagMatch::Found(id) => Some(id),
        _ => None,
    }
}

fn sorted(mut v: Vec<String>) -> Vec<String> {
    v.sort();
    v
}

fn store_a_b() -> QuoteStore {
    let mut db = QuoteStore::new();
    assert_eq!(add_quote_to_db(&mut db, record("A", &["alpha", "beta"])), Ok(()));
    assert_eq!(add_quote_to_db(&mut db, record("B", &["alpha"])), Ok(()));
    db
}

#[test]
fn json_quote_new_keeps_each_tag_once() {
    let q = JsonQuote::new(&quote("q1"), strings(&["x", "y", "x"]));
    assert_eq!(q.id, "q1");
    assert_eq!(q.whos_there, "q1 who");
    assert_eq!(q.answer_who, "q1 answer");
    assert_eq!(q.source, "test");
    assert_eq!(q.tags, strings(&["x", "y"]));
}

#[test]
fn json_quote_to_quote_splits_quote_and_tags() {
    let q = record("q1", &["x", "y"]);
    let (plain, tags) = q.to_quote();
    assert_eq!(plain.id, "q1");
    assert_eq!(plain.whos_there, "q1 who");
    assert_eq!(plain.answer_who, "q1 answer");
    assert_eq!(plain.source, "test");
    assert_eq!(tags, strings(&["x", "y"]));
}

#[test]
fn new_store_is_empty() {
    let db = QuoteStore::new();
    assert_eq!(db.len(), 0);
    assert_eq!(get_random_quote_id_from_db(&db, 7), Err(QuoteError::NotFound));
    assert!(matches!(get_quote_by_id_from_db(&db, "A"), Err(QuoteError::NotFound)));
}

#[test]
fn lookup_by_id_returns_quote_and_tags() {
    let db = store_a_b();
    let (q, tags) = get_quote_by_id_from_db(&db, "A").unwrap();
    assert_eq!(q.id, "A");
    assert_eq!(q.whos_there, "A who");
    assert_eq!(q.answer_who, "A answer");
    assert_eq!(q.source, "test");
    assert_eq!(sorted(tags), strings(&["alpha", "beta"]));
    let (q, tags) = get_quote_by_id_from_db(&db, "B").unwrap();
    assert_eq!(q.id, "B");
    assert_eq!(tags, strings(&["alpha"]));
}

#[test]
fn lookup_of_unknown_id_is_not_found() {
    let db = store_a_b();
    assert!(matches!(get_quote_by_id_from_db(&db, "C"), Err(QuoteError::NotFound)));
    assert!(matches!(get_quote_by_id_from_db(&db, "a"), Err(QuoteError::NotFound)));
}

#[test]
fn random_pick_goes_by_the_draw() {
    let db = store_a_b();
    assert_eq!(get_random_quote_id_from_db(&db, 0), Ok("A".to_string()));
    assert_eq!(get_random_quote_id_from_db(&db, 1), Ok("B".to_string()));
    assert_eq!(get_random_quote_id_from_db(&db, 2), Ok("A".to_string()));
    assert_eq!(get_random_quote_id_from_db(&db, u64::MAX), Ok("B".to_string()));
}

#[test]
fn match_by_tags_scenario() {
    let db = store_a_b();
    for draw in 0..8u64 {
        let both = get_tagged_quote_id_from_db(&db, &strings(&["alpha", "beta"]), draw);
        assert_eq!(found(both), Some("A".to_string()));
        let upper = found(get_tagged_quote_id_from_db(&db, &strings(&["ALPHA"]), draw)).unwrap();
        assert!(upper == "A" || upper == "B");
        let none = get_tagged_quote_id_from_db(&db, &strings(&["gamma"]), draw);
        assert!(matches!(none, TagMatch::NoMatch));
    }
}

#[test]
fn match_returns_only_quotes_that_carry_the_request() {
    let mut db = store_a_b();
    assert_eq!(add_quote_to_db(&mut db, record("C", &["beta", "gamma", "delta"])), Ok(()));
    assert_eq!(add_quote_to_db(&mut db, record("D", &[])), Ok(()));
    let requests: Vec<Vec<String>> = vec![
        strings(&["alpha"]),
        strings(&["Beta "]),
        strings(&["beta", "GAMMA"]),
        strings(&[" alpha", "beta", ""]),
        strings(&["delta", "alpha"]),
    ];
    for request in &requests {
        let wanted = quote_server::tags::normalize_tags(request);
        for draw in 0..12u64 {
            match get_tagged_quote_id_from_db(&db, request, draw) {
                TagMatch::Found(id) => {
                    let (_, tags) = get_quote_by_id_from_db(&db, &id).unwrap();
                    assert!(wanted.iter().all(|t| tags.contains(t)));
                }
                TagMatch::NoMatch => {
                    for id in db.quote_ids() {
                        let (_, tags) = get_quote_by_id_from_db(&db, &id).unwrap();
                        assert!(!wanted.iter().all(|t| tags.contains(t)));
                    }
                }
                TagMatch::NoCriteria => panic!("the request names tags"),
            }
        }
    }
}

#[test]
fn match_without_tags_has_no_criteria() {
    let db = store_a_b();
    assert!(matches!(get_tagged_quote_id_from_db(&db, &Vec::new(), 0), TagMatch::NoCriteria));
    assert!(matches!(
        get_tagged_quote_id_from_db(&db, &strings(&["", "  "]), 0),
        TagMatch::NoCriteria
    ));
    let empty = QuoteStore::new();
    assert!(matches!(get_tagged_quote_id_from_db(&empty, &Vec::new(), 3), TagMatch::NoCriteria));
    assert!(matches!(
        get_tagged_quote_id_from_db(&empty, &strings(&["alpha"]), 3),
        TagMatch::NoMatch
    ));
}

#[test]
fn match_reaches_every_matching_quote() {
    let db = store_a_b();
    let mut seen = Vec::new();
    for draw in 0..16u64 {
        let id = found(get_tagged_quote_id_from_db(&db, &strings(&["alpha"]), draw)).unwrap();
        if !seen.contains(&id) {
            seen.push(id);
        }
    }
    assert_eq!(sorted(seen), strings(&["A", "B"]));
}

#[test]
fn match_exact_picks_by_draw() {
    let db = store_a_b();
    let tags = strings(&["alpha"]);
    assert_eq!(found(get_tagged_quote_id_from_db(&db, &tags, 0)), Some("A".to_string()));
    assert_eq!(found(get_tagged_quote_id_from_db(&db, &tags, 1)), Some("B".to_string()));
    assert_eq!(found(get_tagged_quote_id_from_db(&db, &tags, 5)), Some("B".to_string()));
}

#[test]
fn match_ignores_case_space_order_and_repeats() {
    let db = store_a_b();
    let tags = strings(&[" BETA ", "alpha", "Beta", "", "ALPHA\t"]);
    assert_eq!(found(get_tagged_quote_id_from_db(&db, &tags, 3)), Some("A".to_string()));
}

#[test]
fn matching_quote_ids_lists_supersets_in_order() {
    let db = store_a_b();
    assert_eq!(matching_quote_ids(&db, &strings(&["alpha"])), strings(&["A", "B"]));
    assert_eq!(matching_quote_ids(&db, &strings(&["beta"])), strings(&["A"]));
    assert_eq!(matching_quote_ids(&db, &strings(&["beta", "alpha"])), strings(&["A"]));
    assert!(matching_quote_ids(&db, &strings(&["gamma"])).is_empty());
    assert_eq!(matching_quote_ids(&db, &Vec::new()), strings(&["A", "B"]));
}

#[test]
fn insert_same_id_twice_conflicts() {
    let mut db = QuoteStore::new();
    assert_eq!(add_quote_to_db(&mut db, record("A", &["alpha"])), Ok(()));
    assert_eq!(
        add_quote_to_db(&mut db, record("A", &["omega"])),
        Err(QuoteError::Conflict)
    );
    assert_eq!(db.len(), 1);
    let (_, tags) = get_quote_by_id_from_db(&db, "A").unwrap();
    assert_eq!(tags, strings(&["alpha"]));
    assert!(matches!(
        get_tagged_quote_id_from_db(&db, &strings(&["omega"]), 0),
        TagMatch::NoMatch
    ));
}

#[test]
fn insert_normalizes_tags() {
    let mut db = QuoteStore::new();
    assert_eq!(add_quote_to_db(&mut db, record("A", &[" Alpha ", "ALPHA", "beta"])), Ok(()));
    let (_, tags) = get_quote_by_id_from_db(&db, "A").unwrap();
    assert_eq!(sorted(tags), strings(&["alpha", "beta"]));
}

#[test]
fn insert_with_empty_tag_is_rejected_whole() {
    let mut db = QuoteStore::new();
    assert_eq!(
        add_quote_to_db(&mut db, record("A", &["alpha", "  "])),
        Err(QuoteError::ValidationError)
    );
    assert_eq!(db.len(), 0);
    assert!(matches!(get_quote_by_id_from_db(&db, "A"), Err(QuoteError::NotFound)));
    assert!(matches!(
        get_tagged_quote_id_from_db(&db, &strings(&["alpha"]), 0),
        TagMatch::NoMatch
    ));
}

#[test]
fn insert_conflict_comes_before_validation() {
    let mut db = QuoteStore::new();
    assert_eq!(add_quote_to_db(&mut db, record("A", &["alpha"])), Ok(()));
    assert_eq!(add_quote_to_db(&mut db, record("A", &[""])), Err(QuoteError::Conflict));
}

#[test]
fn insert_without_tags_is_accepted() {
    let mut db = QuoteStore::new();
    assert_eq!(add_quote_to_db(&mut db, record("A", &[])), Ok(()));
    let (_, tags) = get_quote_by_id_from_db(&db, "A").unwrap();
    assert!(tags.is_empty());
    assert!(matches!(
        get_tagged_quote_id_from_db(&db, &strings(&["alpha"]), 0),
        TagMatch::NoMatch
    ));
}

#[test]
fn bulk_load_skips_empty_tags_and_merges_known_ids() {
    let mut db = QuoteStore::new();
    let records = vec![
        record("A", &["Alpha", " "]),
        record("B", &["beta"]),
        JsonQuote {
            id: "A".to_string(),
            whos_there: "other".to_string(),
            answer_who: "other".to_string(),
            tags: strings(&["GAMMA", "alpha"]),
            source: "other".to_string(),
        },
    ];
    load_quotes(&mut db, &records);
    assert_eq!(db.len(), 2);
    let (q, tags) = get_quote_by_id_from_db(&db, "A").unwrap();
    assert_eq!(q.whos_there, "A who");
    assert_eq!(q.source, "test");
    assert_eq!(sorted(tags), strings(&["alpha", "gamma"]));
    let (_, tags) = get_quote_by_id_from_db(&db, "B").unwrap();
    assert_eq!(tags, strings(&["beta"]));
    assert_eq!(get_random_quote_id_from_db(&db, 0), Ok("A".to_string()));
    assert_eq!(get_random_quote_id_from_db(&db, 1), Ok("B".to_string()));
}

#[test]
fn quote_ids_come_in_order_of_insertion() {
    let db = store_a_b();
    assert_eq!(db.quote_ids(), strings(&["A", "B"]));
    assert!(QuoteStore::new().quote_ids().is_empty());
}

#[test]
fn bulk_load_of_nothing_changes_nothing() {
    let mut db = store_a_b();
    load_quotes(&mut db, &Vec::new());
    assert_eq!(db.len(), 2);
}
