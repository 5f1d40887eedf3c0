use quote_server::api::{
    add_quote, add_quote_at, get_quote_api, get_quote_data_for_api, get_random_quote_api,
    get_tagged_quote_api, lookup, match_by_tags, pick_random, read_failure_status, register,
    AddQuoteError, Status,
};
use quote_server::authjwt::{
    authorize, issue_at, make_jwt_keys, register_and_create_token, secret_file_path,
    secret_from_text, verify, AuthError, JwtKeys, Registration, DEFAULT_SECRET_FILE,
    SECRET_FILE_VARIABLE,
};
use quote_server::quote::{add_quote_to_db, JsonQuote, Quote, QuoteError};
use quote_server::templates::IndexTemplate;
use quote_server::web::{
    fallback_quote, get_main_page_handler, uri_for_quote, GetQuoteParams, PageAction,
};
use quote_server::AppState;

fn texts_of(items: &[&str]) -> Vec<String> {
    items.iter().map(|s| s.to_string()).collect()
}

fn record(id: &str, tags: &[&str]) -> JsonQuote {
    let quote = Quote {
        id: id.to_string(),
        whos_there: format!("{} who", id),
        answer_who: format!("{} answer", id),
        source: "test".to_string(),
    };
    JsonQuote::new(&quote, texts_of(tags))
}

fn registration(password: &str) -> Registration {
    Registration {
        full_name: "Alex Osorio Trujillo".to_string(),
        email: "alex@example.com".to_string(),
        password: password.to_string(),
    }
}

fn state() -> AppState {
    let mut state = AppState::new(JwtKeys::new(b"signing secret"), "reg-key".to_string());
    assert_eq!(add_quote_to_db(&mut state.db, record("A", &["alpha", "beta"])), Ok(()));
    assert_eq!(add_quote_to_db(&mut state.db, record("B", &["alpha"])), Ok(()));
    state
}

fn sorted(mut v: Vec<String>) -> Vec<String> {
    v.sort();
    v
}

#[test]
fn status_codes() {
    assert_eq!(Status::Success.code(), 200);
    assert_eq!(Status::Created.code(), 201);
    assert_eq!(Status::BadRequest.code(), 400);
    assert_eq!(Status::Unauthorized.code(), 401);
    assert_eq!(Status::NotFound.code(), 404);
    assert_eq!(Status::InternalServerError.code(), 500);
}

#[test]
fn read_failures_are_misses_or_internal() {
    assert_eq!(read_failure_status(QuoteError::NotFound), Status::NotFound);
    assert_eq!(read_failure_status(QuoteError::NoMatch), Status::NotFound);
    assert_eq!(read_failure_status(QuoteError::StoreUnavailable), Status::InternalServerError);
    assert_eq!(read_failure_status(QuoteError::Conflict), Status::InternalServerError);
    assert_eq!(read_failure_status(QuoteError::ValidationError), Status::InternalServerError);
}

#[test]
fn auth_errors_have_status_and_message() {
    assert_eq!(
        AuthError::InvalidToken.into_response(),
        (Status::Unauthorized, "Invalid authentication token.")
    );
    assert_eq!(
        AuthError::TokenCreation.into_response(),
        (Status::InternalServerError, "Internal error creating token.")
    );
    assert_eq!(
        AuthError::InvalidRegistrationKey.into_response(),
        (Status::Unauthorized, "Invalid registration key provided.")
    );
    assert_eq!(AuthError::InvalidToken.message(), "Invalid token");
    assert_eq!(AuthError::TokenCreation.message(), "Internal error: Failed to create token");
    assert_eq!(AuthError::InvalidRegistrationKey.message(), "Invalid registration key");
}

#[test]
fn add_quote_errors_have_status() {
    assert_eq!(AddQuoteError::Auth(AuthError::InvalidToken).status(), Status::Unauthorized);
    assert_eq!(AddQuoteError::Store(QuoteError::Conflict).status(), Status::BadRequest);
    assert_eq!(AddQuoteError::Store(QuoteError::ValidationError).status(), Status::BadRequest);
}

#[test]
fn lookup_finds_by_id_or_fails_as_not_found() {
    let state = state();
    let q = lookup(&state.db, "A").unwrap();
    assert_eq!(q.id, "A");
    assert_eq!(q.answer_who, "A answer");
    assert_eq!(sorted(q.tags), texts_of(&["alpha", "beta"]));
    assert_eq!(lookup(&state.db, "nope").unwrap_err(), QuoteError::NotFound);
}

#[test]
fn match_by_tags_tells_no_criteria_from_no_match() {
    let state = state();
    assert!(match_by_tags(&state.db, &Vec::new(), 0).unwrap().is_none());
    assert!(match_by_tags(&state.db, &texts_of(&["", "  "]), 0).unwrap().is_none());
    assert_eq!(
        match_by_tags(&state.db, &texts_of(&["gamma"]), 0).unwrap_err(),
        QuoteError::NoMatch
    );
    let a = match_by_tags(&state.db, &texts_of(&["alpha", "beta"]), 7).unwrap().unwrap();
    assert_eq!(a.id, "A");
    assert_eq!(sorted(a.tags), texts_of(&["alpha", "beta"]));
    let either = match_by_tags(&state.db, &texts_of(&["ALPHA"]), 1).unwrap().unwrap();
    assert_eq!(either.id, "B");
    assert_eq!(either.tags, texts_of(&["alpha"]));
}

#[test]
fn pick_random_goes_by_the_draw() {
    let state = state();
    assert_eq!(pick_random(&state.db, 0).unwrap().id, "A");
    assert_eq!(pick_random(&state.db, 1).unwrap().id, "B");
    assert_eq!(pick_random(&state.db, 4).unwrap().id, "A");
    let empty = AppState::new(JwtKeys::new(b"k"), "reg-key".to_string());
    assert_eq!(pick_random(&empty.db, 0).unwrap_err(), QuoteError::NotFound);
}

#[test]
fn quote_api_returns_quote_with_tags() {
    let state = state();
    let q = get_quote_api(&state, "A").unwrap();
    assert_eq!(q.id, "A");
    assert_eq!(q.whos_there, "A who");
    assert_eq!(q.answer_who, "A answer");
    assert_eq!(q.source, "test");
    assert_eq!(sorted(q.tags), texts_of(&["alpha", "beta"]));
    assert_eq!(get_quote_api(&state, "Z").unwrap_err(), Status::NotFound);
    assert_eq!(get_quote_data_for_api(&state.db, "B").unwrap().tags, texts_of(&["alpha"]));
    assert_eq!(get_quote_data_for_api(&state.db, "").unwrap_err(), Status::NotFound);
}

#[test]
fn tagged_quote_api_finds_or_misses() {
    let state = state();
    assert_eq!(get_tagged_quote_api(&state, &texts_of(&["Beta"]), 9).unwrap().id, "A");
    assert_eq!(get_tagged_quote_api(&state, &texts_of(&["alpha"]), 1).unwrap().id, "B");
    assert_eq!(
        get_tagged_quote_api(&state, &texts_of(&["gamma"]), 0).unwrap_err(),
        Status::NotFound
    );
    assert_eq!(get_tagged_quote_api(&state, &Vec::new(), 0).unwrap_err(), Status::NotFound);
}

#[test]
fn random_quote_api_picks_or_misses() {
    let state = state();
    assert_eq!(get_random_quote_api(&state, 0).unwrap().id, "A");
    assert_eq!(get_random_quote_api(&state, 3).unwrap().id, "B");
    let empty = AppState::new(JwtKeys::new(b"k"), "reg-key".to_string());
    assert_eq!(get_random_quote_api(&empty, 0).unwrap_err(), Status::NotFound);
}

#[test]
fn register_needs_the_registration_key() {
    let state = state();
    let body = register(&state, &registration("reg-key")).unwrap();
    assert_eq!(body.token_type(), "Bearer");
    let claims = verify(&state.jwt_keys, body.access_token()).unwrap();
    assert_eq!(claims.sub, "Alex Osorio Trujillo <alex@example.com>");
    assert!(matches!(
        register(&state, &registration("other")),
        Err(AuthError::InvalidRegistrationKey)
    ));
    assert!(matches!(
        register_and_create_token(&state, &registration("other")),
        Err(AuthError::InvalidRegistrationKey)
    ));
    assert!(register_and_create_token(&state, &registration("reg-key")).is_ok());
}

#[test]
fn add_quote_needs_a_valid_credential() {
    let mut state = state();
    let r = add_quote(&mut state, None, record("C", &["gamma"]));
    assert_eq!(r, Err(AddQuoteError::Auth(AuthError::InvalidToken)));
    let r = add_quote(&mut state, Some("not a token"), record("C", &["gamma"]));
    assert_eq!(r, Err(AddQuoteError::Auth(AuthError::InvalidToken)));
    assert_eq!(state.db.len(), 2);
    assert_eq!(get_quote_api(&state, "C").unwrap_err(), Status::NotFound);

    let body = register(&state, &registration("reg-key")).unwrap();
    let token = body.access_token().clone();
    assert_eq!(add_quote(&mut state, Some(&token), record("C", &["Gamma"])), Ok(()));
    assert_eq!(get_quote_api(&state, "C").unwrap().tags, texts_of(&["gamma"]));
    assert_eq!(
        add_quote(&mut state, Some(&token), record("C", &["delta"])),
        Err(AddQuoteError::Store(QuoteError::Conflict))
    );
    assert_eq!(
        add_quote(&mut state, Some(&token), record("D", &[" "])),
        Err(AddQuoteError::Store(QuoteError::ValidationError))
    );
    assert_eq!(state.db.len(), 3);
}

#[test]
fn add_quote_at_goes_by_the_given_time() {
    let mut state = state();
    let now = 1_700_000_000;
    let body = issue_at(&state.reg_key, &state.jwt_keys, &registration("reg-key"), now).unwrap();
    let token = body.access_token().clone();
    assert_eq!(
        add_quote_at(&mut state, Some(&token), record("C", &[]), now + 86_400),
        Err(AddQuoteError::Auth(AuthError::InvalidToken))
    );
    assert_eq!(state.db.len(), 2);
    assert_eq!(add_quote_at(&mut state, Some(&token), record("C", &[]), now + 86_399), Ok(()));
    assert_eq!(state.db.len(), 3);
}

#[test]
fn authorize_reads_the_clock() {
    let keys = JwtKeys::new(b"signing secret");
    assert!(matches!(authorize(&keys, None), Err(AuthError::InvalidToken)));
    let old = issue_at(&"k".to_string(), &keys, &registration("k"), 1_000).unwrap();
    assert!(matches!(authorize(&keys, Some(old.access_token())), Err(AuthError::InvalidToken)));
}

#[test]
fn secret_comes_trimmed_from_the_file() {
    assert_eq!(secret_from_text("  s3cret\n"), "s3cret");
    assert_eq!(secret_from_text("a b\t"), "a b");
    assert_eq!(secret_file_path(Some("/run/secret".to_string()), "x"), "/run/secret");
    assert_eq!(secret_file_path(None, DEFAULT_SECRET_FILE), "secrets/jwt_secret.txt");
    assert_eq!(SECRET_FILE_VARIABLE, "JWT_SECRETFILE");
    let keys = make_jwt_keys(" signing secret \n");
    let now = 1_700_000_000;
    let body = issue_at(&"k".to_string(), &keys, &registration("k"), now).unwrap();
    let same = JwtKeys::new(b"signing secret");
    assert!(quote_server::authjwt::verify_at(&same, body.access_token(), now).is_ok());
    let padded = JwtKeys::new(b" signing secret \n");
    assert!(quote_server::authjwt::verify_at(&padded, body.access_token(), now).is_err());
}

#[test]
fn index_template_holds_what_it_is_given() {
    let page = IndexTemplate::new(fallback_quote(), "a, b".to_string());
    assert_eq!(page.stylesheet, "/style.css");
    assert_eq!(page.tags, "a, b");
    assert_eq!(page.quote.id, "error");
    assert_eq!(page.quote.whos_there, "Oh no!");
    assert_eq!(
        page.quote.answer_who,
        "The quote you were looking for decided to take a day off. Try another!"
    );
    assert_eq!(page.quote.source, "The Server");
}

#[test]
fn quote_uri_is_the_main_page_with_an_id() {
    assert_eq!(uri_for_quote("A"), "/?id=A");
    assert_eq!(uri_for_quote(""), "/?id=");
}

fn redirect(action: PageAction) -> String {
    match action {
        PageAction::Redirect(uri) => uri,
        PageAction::Render(_) => panic!("the page was rendered"),
    }
}

fn render(action: PageAction) -> IndexTemplate {
    match action {
        PageAction::Render(page) => page,
        PageAction::Redirect(uri) => panic!("redirected to {}", uri),
    }
}

fn params(id: Option<&str>, tags: Option<&str>) -> GetQuoteParams {
    GetQuoteParams { id: id.map(|s| s.to_string()), tags: tags.map(|s| s.to_string()) }
}

#[test]
fn main_page_redirects_to_a_tagged_quote() {
    let state = state();
    let action = get_main_page_handler(&state, &params(None, Some(" Beta , ALPHA,")), 5);
    assert_eq!(redirect(action), "/?id=A");
    let action = get_main_page_handler(&state, &params(Some("B"), Some("beta")), 0);
    assert_eq!(redirect(action), "/?id=A");
}

#[test]
fn main_page_shows_the_quote_with_the_id() {
    let state = state();
    let page = render(get_main_page_handler(&state, &params(Some("A"), None), 1));
    assert_eq!(page.quote.id, "A");
    assert_eq!(page.quote.whos_there, "A who");
    assert_eq!(page.stylesheet, "/style.css");
    assert!(page.tags == "alpha, beta" || page.tags == "beta, alpha");
    let page = render(get_main_page_handler(&state, &params(Some("B"), Some("gamma")), 1));
    assert_eq!(page.quote.id, "B");
    assert_eq!(page.tags, "alpha");
    let page = render(get_main_page_handler(&state, &params(Some("B"), Some(" , ")), 1));
    assert_eq!(page.quote.id, "B");
}

#[test]
fn main_page_falls_back_to_a_random_quote() {
    let state = state();
    assert_eq!(redirect(get_main_page_handler(&state, &params(None, None), 0)), "/?id=A");
    assert_eq!(redirect(get_main_page_handler(&state, &params(None, None), 1)), "/?id=B");
    assert_eq!(redirect(get_main_page_handler(&state, &params(Some("Z"), None), 1)), "/?id=B");
    assert_eq!(
        redirect(get_main_page_handler(&state, &params(Some("Z"), Some("gamma")), 2)),
        "/?id=A"
    );
    assert_eq!(redirect(get_main_page_handler(&state, &params(None, Some("")), 3)), "/?id=B");
}

#[test]
fn main_page_of_an_empty_store_shows_the_fallback() {
    let empty = AppState::new(JwtKeys::new(b"k"), "reg-key".to_string());
    let page = render(get_main_page_handler(&empty, &params(Some("A"), Some("alpha")), 0));
    assert_eq!(page.quote.id, "error");
    assert_eq!(page.quote.whos_there, "Oh no!");
    assert_eq!(page.quote.source, "The Server");
    assert_eq!(page.tags, "error");
    assert_eq!(page.stylesheet, "/style.css");
}
