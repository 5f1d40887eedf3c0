use quote_server::text::{join_texts, split_at_commas};

fn texts_of(items: &[&str]) -> Vec<String> {
    items.iter().map(|s| s.to_string()).collect()
}

#[test]
fn split_at_commas_gives_every_piece() {
    assert_eq!(split_at_commas("a,b,c"), texts_of(&["a", "b", "c"]));
    assert_eq!(split_at_commas("alpha"), texts_of(&["alpha"]));
    assert_eq!(split_at_commas(" a , b "), texts_of(&[" a ", " b "]));
}

#[test]
fn split_at_commas_keeps_empty_pieces() {
    assert_eq!(split_at_commas(""), texts_of(&[""]));
    assert_eq!(split_at_commas(","), texts_of(&["", ""]));
    assert_eq!(split_at_commas("a,,b,"), texts_of(&["a", "", "b", ""]));
    assert_eq!(split_at_commas(",a"), texts_of(&["", "a"]));
}

#[test]
fn split_at_commas_counts_characters_not_bytes() {
    assert_eq!(split_at_commas("é,ü,日本"), texts_of(&["é", "ü", "日本"]));
}

#[test]
fn split_at_commas_agrees_with_std() {
    for s in ["", "a", ",", "a,b", ",,", "x,,y", "tag one, tag two ,", "é,,ß"] {
        let expected: Vec<String> = s.split(',').map(|p| p.to_string()).collect();
        assert_eq!(split_at_commas(s), expected);
    }
}

#[test]
fn join_texts_puts_separator_between() {
    assert_eq!(join_texts(&texts_of(&["a", "b", "c"]), ", "), "a, b, c");
    assert_eq!(join_texts(&texts_of(&["a"]), ", "), "a");
    assert_eq!(join_texts(&Vec::new(), ", "), "");
    assert_eq!(join_texts(&texts_of(&["", ""]), "-"), "-");
}

#[test]
fn join_after_split_gives_the_string_back() {
    for s in ["", "a", ",", "a,b", ",,", "x,,y,"] {
        assert_eq!(join_texts(&split_at_commas(s), ","), s);
    }
}
