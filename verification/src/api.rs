//! The operations that the service offers, on its state, and the status
//! with which each ends.

use crate::authjwt::{
    answer_view, authorize, bearer_view, grant, issue_answer, register_and_create_token, AuthBody,
    AuthError, Claims, Registration,
};
use crate::quote::{
    add_quote_to_db, entry_with_id, get_quote_by_id_from_db, get_random_quote_id_from_db,
    get_tagged_quote_id_from_db, has_id, insert_outcome, lemma_index_with_id, tag_match, Entry,
    JsonQuote, QuoteError, QuoteStore, TagMatch, TagMatchView,
};
use crate::state::AppState;
use crate::store_laws::lemma_found_quote_carries_request;
use crate::tags::{lemma_first_occurrences_of_distinct, texts};
use vstd::prelude::*;

verus! {

/// The status with which a request ends.
#[derive(Clone, Copy, Debug, PartialEq, Eq, Structural)]
pub enum Status {
    Success,
    Created,
    BadRequest,
    Unauthorized,
    NotFound,
    InternalServerError,
}

impl Status {
    /// The number of the status.
    pub open spec fn spec_code(self) -> int {
        match self {
            Status::Success => 200,
            Status::Created => 201,
            Status::BadRequest => 400,
            Status::Unauthorized => 401,
            Status::NotFound => 404,
            Status::InternalServerError => 500,
        }
    }

    /// The number of the status.
    pub fn code(self) -> (n: u16)
        ensures
            n == self.spec_code(),
    {
        match self {
            Status::Success => 200,
            Status::Created => 201,
            Status::BadRequest => 400,
            Status::Unauthorized => 401,
            Status::NotFound => 404,
            Status::InternalServerError => 500,
        }
    }
}

/// The status for a failed read of the store: a miss is `NotFound`, and
/// anything else is the service's own failure.
pub open spec fn read_failure(e: QuoteError) -> Status {
    match e {
        QuoteError::NotFound => Status::NotFound,
        QuoteError::NoMatch => Status::NotFound,
        _ => Status::InternalServerError,
    }
}

/// The status for a failed read of the store.
pub fn read_failure_status(e: QuoteError) -> (s: Status)
    ensures
        s == read_failure(e),
{
    match e {
        QuoteError::NotFound => Status::NotFound,
        QuoteError::NoMatch => Status::NotFound,
        _ => Status::InternalServerError,
    }
}

/// Why a quote was not added: for want of a valid credential, or because the
/// store refused it.
#[derive(Clone, Copy, Debug, PartialEq, Eq, Structural)]
pub enum AddQuoteError {
    Auth(AuthError),
    Store(QuoteError),
}

impl AddQuoteError {
    /// The status of a failed addition: `Unauthorized` without a valid
    /// credential, `BadRequest` where the store refused the quote.
    pub open spec fn spec_status(self) -> Status {
        match self {
            AddQuoteError::Auth(_) => Status::Unauthorized,
            AddQuoteError::Store(_) => Status::BadRequest,
        }
    }

    /// The status of a failed addition.
    pub fn status(self) -> (s: Status)
        ensures
            s == self.spec_status(),
    {
        match self {
            AddQuoteError::Auth(_) => Status::Unauthorized,
            AddQuoteError::Store(_) => Status::BadRequest,
        }
    }
}

/// The quote under the id `id` with its tags, or `NotFound` where no stored
/// quote has that id.
pub open spec fn lookup_answer(entries: Seq<Entry>, id: Seq<char>) -> Result<Entry, QuoteError> {
    if has_id(entries, id) {
        Ok(entry_with_id(entries, id))
    } else {
        Err(QuoteError::NotFound)
    }
}

/// What a search by the raw tags `raw` yields: nothing where the search has
/// no criteria, `NoMatch` where no stored quote carries all the requested
/// tags, else the quote that `draw` picks among those that do.
pub open spec fn match_answer(entries: Seq<Entry>, raw: Seq<Seq<char>>, draw: int) -> Result<
    Option<Entry>,
    QuoteError,
> {
    match tag_match(entries, raw, draw) {
        TagMatchView::NoCriteria => Ok(None),
        TagMatchView::NoMatch => Err(QuoteError::NoMatch),
        TagMatchView::Found(id) => Ok(Some(entry_with_id(entries, id))),
    }
}

/// The quote that `draw` picks among all stored quotes, or `NotFound` where
/// the store is empty.
pub open spec fn random_answer(entries: Seq<Entry>, draw: int) -> Result<Entry, QuoteError> {
    if entries.len() == 0 {
        Err(QuoteError::NotFound)
    } else {
        Ok(entries[draw % (entries.len() as int)])
    }
}

/// A quote or a failure, as plain values.
pub open spec fn found_view<E>(r: Result<JsonQuote, E>) -> Result<Entry, E> {
    match r {
        Ok(quote) => Ok(quote@),
        Err(e) => Err(e),
    }
}

/// A quote, nothing or a failure, as plain values.
pub open spec fn match_view(r: Result<Option<JsonQuote>, QuoteError>) -> Result<
    Option<Entry>,
    QuoteError,
> {
    match r {
        Ok(Some(quote)) => Ok(Some(quote@)),
        Ok(None) => Ok(None),
        Err(e) => Err(e),
    }
}

/// Looks up the quote with the id `id` and its tags.
pub fn lookup(db: &QuoteStore, id: &str) -> (r: Result<JsonQuote, QuoteError>)
    requires
        db.wf(),
    ensures
        found_view(r) == lookup_answer(db@, id@),
        r matches Ok(quote) ==> quote.wf(),
{
    match get_quote_by_id_from_db(db, id) {
        Ok((quote, tags)) => {
            let ghost stored = texts(tags@);
            let json = JsonQuote::new(&quote, tags);
            proof {
                lemma_first_occurrences_of_distinct(stored);
            }
            Ok(json)
        },
        Err(e) => Err(e),
    }
}

/// Searches a quote that carries all the given tags; `draw` picks among
/// those that do. A search without criteria yields nothing, and leaves it to
/// the caller to look elsewhere.
pub fn match_by_tags(db: &QuoteStore, tags: &Vec<String>, draw: u64) -> (r: Result<
    Option<JsonQuote>,
    QuoteError,
>)
    requires
        db.wf(),
    ensures
        match_view(r) == match_answer(db@, texts(tags@), draw as int),
{
    proof {
        lemma_found_quote_carries_request(db@, texts(tags@), draw as int);
    }
    match get_tagged_quote_id_from_db(db, tags, draw) {
        TagMatch::NoCriteria => Ok(None),
        TagMatch::NoMatch => Err(QuoteError::NoMatch),
        TagMatch::Found(id) => match lookup(db, id.as_str()) {
            Ok(quote) => Ok(Some(quote)),
            Err(e) => Err(e),
        },
    }
}

/// Picks a quote among all stored ones by the draw `draw`.
pub fn pick_random(db: &QuoteStore, draw: u64) -> (r: Result<JsonQuote, QuoteError>)
    requires
        db.wf(),
    ensures
        found_view(r) == random_answer(db@, draw as int),
{
    match get_random_quote_id_from_db(db, draw) {
        Ok(id) => {
            proof {
                lemma_index_with_id(db@, draw as int % (db@.len() as int));
            }
            lookup(db, id.as_str())
        },
        Err(e) => Err(e),
    }
}

/// What a request for the quote with the id `id` is answered with.
pub open spec fn quote_answer(entries: Seq<Entry>, id: Seq<char>) -> Result<Entry, Status> {
    match lookup_answer(entries, id) {
        Ok(entry) => Ok(entry),
        Err(e) => Err(read_failure(e)),
    }
}

/// Fetches the quote with the id `quote_id` and its tags: `NotFound` where
/// there is none.
pub fn get_quote_data_for_api(db: &QuoteStore, quote_id: &str) -> (r: Result<JsonQuote, Status>)
    requires
        db.wf(),
    ensures
        found_view(r) == quote_answer(db@, quote_id@),
{
    match lookup(db, quote_id) {
        Ok(quote) => Ok(quote),
        Err(e) => Err(read_failure_status(e)),
    }
}

/// Answers a request for a quote by its id.
pub fn get_quote_api(app_state: &AppState, quote_id: &str) -> (r: Result<JsonQuote, Status>)
    requires
        app_state.wf(),
    ensures
        found_view(r) == quote_answer(app_state.db@, quote_id@),
{
    get_quote_data_for_api(&app_state.db, quote_id)
}

/// What a request for a quote with the raw tags `raw` is answered with: the
/// quote that the search finds, and `NotFound` where it finds none or has no
/// criteria.
pub open spec fn tagged_quote_answer(entries: Seq<Entry>, raw: Seq<Seq<char>>, draw: int) -> Result<
    Entry,
    Status,
> {
    match match_answer(entries, raw, draw) {
        Ok(Some(entry)) => Ok(entry),
        Ok(None) => Err(Status::NotFound),
        Err(e) => Err(read_failure(e)),
    }
}

/// Answers a request for a quote that carries all the given tags; `draw`
/// picks among those that do.
pub fn get_tagged_quote_api(app_state: &AppState, tags_payload: &Vec<String>, draw: u64) -> (r:
    Result<JsonQuote, Status>)
    requires
        app_state.wf(),
    ensures
        found_view(r) == tagged_quote_answer(app_state.db@, texts(tags_payload@), draw as int),
{
    match match_by_tags(&app_state.db, tags_payload, draw) {
        Ok(Some(quote)) => Ok(quote),
        Ok(None) => Err(Status::NotFound),
        Err(e) => Err(read_failure_status(e)),
    }
}

/// What a request for any quote is answered with: the quote that `draw`
/// picks, and `NotFound` where the store is empty.
pub open spec fn random_quote_answer(entries: Seq<Entry>, draw: int) -> Result<Entry, Status> {
    match random_answer(entries, draw) {
        Ok(entry) => Ok(entry),
        Err(e) => Err(read_failure(e)),
    }
}

/// Answers a request for any quote; `draw` picks it.
pub fn get_random_quote_api(app_state: &AppState, draw: u64) -> (r: Result<JsonQuote, Status>)
    requires
        app_state.wf(),
    ensures
        found_view(r) == random_quote_answer(app_state.db@, draw as int),
{
    match pick_random(&app_state.db, draw) {
        Ok(quote) => Ok(quote),
        Err(e) => Err(read_failure_status(e)),
    }
}

/// Answers a registration: a credential for who knows the registration key.
pub fn register(app_state: &AppState, registration: &Registration) -> (r: Result<
    AuthBody,
    AuthError,
>)
    ensures
        exists|now: int| answer_view(r) == #[trigger] issue_answer(
            app_state.reg_key@,
            app_state.jwt_keys@,
            registration@,
            now,
        ),
        registration.password@ != app_state.reg_key@ <==> r matches Err(
            AuthError::InvalidRegistrationKey,
        ),
{
    register_and_create_token(app_state, registration)
}

/// What adding a quote does, given what the authority granted the request:
/// without a valid credential nothing is added; with one, the quote is
/// inserted as `insert_outcome` says.
pub open spec fn add_quote_outcome(
    granted: bool,
    entries: Seq<Entry>,
    quote: JsonQuote,
) -> Result<Seq<Entry>, AddQuoteError> {
    if !granted {
        Err(AddQuoteError::Auth(AuthError::InvalidToken))
    } else {
        match insert_outcome(entries, quote@.quote, texts(quote.tags@)) {
            Ok(after) => Ok(after),
            Err(e) => Err(AddQuoteError::Store(e)),
        }
    }
}

/// Adds a quote for a request whose credential the authority has judged.
fn add_quote_as(app_state: &mut AppState, claims: Result<Claims, AuthError>, quote: JsonQuote) -> (r:
    Result<(), AddQuoteError>)
    requires
        old(app_state).wf(),
        claims matches Err(e) ==> e == AuthError::InvalidToken,
    ensures
        final(app_state).wf(),
        final(app_state).jwt_keys == old(app_state).jwt_keys,
        final(app_state).reg_key == old(app_state).reg_key,
        match add_quote_outcome(claims is Ok, old(app_state).db@, quote) {
            Ok(after) => r is Ok && final(app_state).db@ == after,
            Err(e) => r == Err::<(), AddQuoteError>(e) && final(app_state).db@ == old(
                app_state,
            ).db@,
        },
{
    match claims {
        Ok(_) => match add_quote_to_db(&mut app_state.db, quote) {
            Ok(()) => Ok(()),
            Err(e) => Err(AddQuoteError::Store(e)),
        },
        Err(e) => Err(AddQuoteError::Auth(e)),
    }
}

/// Adds a quote at the time `now`, for a request that presents `bearer`.
/// Without a credential that is valid at `now` the store stays as it is and
/// the request is unauthorized; with one, the quote is inserted, all of it
/// or nothing.
pub fn add_quote_at(
    app_state: &mut AppState,
    bearer: Option<&str>,
    quote: JsonQuote,
    now: i64,
) -> (r: Result<(), AddQuoteError>)
    requires
        old(app_state).wf(),
    ensures
        final(app_state).wf(),
        final(app_state).jwt_keys == old(app_state).jwt_keys,
        final(app_state).reg_key == old(app_state).reg_key,
        match add_quote_outcome(
            grant(old(app_state).jwt_keys@, bearer_view(bearer), now as int) is Ok,
            old(app_state).db@,
            quote,
        ) {
            Ok(after) => r is Ok && final(app_state).db@ == after,
            Err(e) => r == Err::<(), AddQuoteError>(e) && final(app_state).db@ == old(
                app_state,
            ).db@,
        },
{
    let claims = Claims::from_request_parts(&app_state.jwt_keys, bearer, now);
    add_quote_as(app_state, claims, quote)
}

/// Adds a quote now: `add_quote_at` at the time that the clock shows.
pub fn add_quote(app_state: &mut AppState, bearer: Option<&str>, quote: JsonQuote) -> (r: Result<
    (),
    AddQuoteError,
>)
    requires
        old(app_state).wf(),
    ensures
        final(app_state).wf(),
        final(app_state).jwt_keys == old(app_state).jwt_keys,
        final(app_state).reg_key == old(app_state).reg_key,
        exists|now: int|
            match add_quote_outcome(
                #[trigger] grant(old(app_state).jwt_keys@, bearer_view(bearer), now) is Ok,
                old(app_state).db@,
                quote,
            ) {
                Ok(after) => r is Ok && final(app_state).db@ == after,
                Err(e) => r == Err::<(), AddQuoteError>(e) && final(app_state).db@ == old(
                    app_state,
                ).db@,
            },
        bearer is None ==> r == Err::<(), AddQuoteError>(
            AddQuoteError::Auth(AuthError::InvalidToken),
        ),
{
    let claims = authorize(&app_state.jwt_keys, bearer);
    add_quote_as(app_state, claims, quote)
}

} // verus!
