use quote_server::config::{db_directory_of, get_db_uri_from_args_or_env, DEFAULT_DB_URI};
use quote_server::error::KnockKnockError;

#[test]
fn db_uri_prefers_argument_then_environment() {
    assert_eq!(get_db_uri_from_args_or_env(Some("sqlite:a.db"), Some("sqlite:b.db")), "sqlite:a.db");
    assert_eq!(get_db_uri_from_args_or_env(None, Some("sqlite:b.db")), "sqlite:b.db");
    assert_eq!(get_db_uri_from_args_or_env(None, None), "sqlite:db/quotes.db");
    assert_eq!(DEFAULT_DB_URI, "sqlite:db/quotes.db");
}

#[test]
fn db_directory_is_between_last_colon_and_last_slash() {
    assert_eq!(db_directory_of("sqlite:db/quotes.db"), Some("db".to_string()));
    assert_eq!(db_directory_of("sqlite:a/b/c.db"), Some("a/b".to_string()));
    assert_eq!(db_directory_of("sqlite:///var/lib/q.db"), Some("///var/lib".to_string()));
    assert_eq!(db_directory_of("sqlite://host:données/é.db"), Some("données".to_string()));
}

#[test]
fn db_directory_is_missing_without_colon_or_slash() {
    assert_eq!(db_directory_of("sqlite:quotes.db"), None);
    assert_eq!(db_directory_of("db/quotes.db"), None);
    assert_eq!(db_directory_of("sqlite:/quotes.db"), None);
    assert_eq!(db_directory_of("a/b:c"), None);
    assert_eq!(db_directory_of(""), None);
    assert_eq!(db_directory_of(":"), None);
    assert_eq!(db_directory_of("sqlite:"), None);
}

#[test]
fn db_directory_agrees_with_std() {
    for uri in ["sqlite:db/quotes.db", "a:b/c:d/e/f", "x", ":/", ":a/", "::a//b"] {
        let expected = uri.rfind(':').and_then(|colon| {
            let path = &uri[colon + 1..];
            path.rfind('/').map(|slash| path[..slash].to_string())
        });
        let expected = expected.filter(|d| !d.is_empty());
        assert_eq!(db_directory_of(uri), expected);
    }
}

#[test]
fn load_errors_say_what_went_wrong() {
    assert_eq!(
        KnockKnockError::quotesNotFound("no such file".to_string()).message(),
        "could not find quote file: no such file"
    );
    assert_eq!(
        KnockKnockError::quoteMisformat("expected value".to_string()).message(),
        "could not read quote file: expected value"
    );
    assert_eq!(
        KnockKnockError::InvalidDbUri("nope".to_string()).message(),
        "invalid database uri: nope"
    );
}
