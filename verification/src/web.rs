//! The main page: which quote it shows, or where it sends the visitor.

use crate::quote::{
    all_ids, drawn, entry_with_id, get_quote_by_id_from_db,
    get_random_quote_id_from_db, get_tagged_quote_id_from_db, has_id, tag_match, Entry, Quote,
    QuoteView, TagMatch, TagMatchView,
};
use crate::state::AppState;
use crate::tags::texts;
use crate::templates::{IndexTemplate, STYLESHEET};
use crate::text::{join_texts, joined, split_at_commas, split_commas};
use vstd::prelude::*;
use vstd::string::StringExecFns;

verus! {

/// What a visitor of the main page may ask for: a quote by its id, or one
/// that carries the tags of a list separated by commas.
#[derive(Clone, Debug)]
pub struct GetQuoteParams {
    pub id: Option<String>,
    pub tags: Option<String>,
}

/// What a visitor asks for, as character sequences.
pub struct GetQuoteParamsView {
    pub id: Option<Seq<char>>,
    pub tags: Option<Seq<char>>,
}

impl View for GetQuoteParams {
    type V = GetQuoteParamsView;

    open spec fn view(&self) -> GetQuoteParamsView {
        GetQuoteParamsView {
            id: match self.id {
                Some(id) => Some(id@),
                None => None,
            },
            tags: match self.tags {
                Some(tags) => Some(tags@),
                None => None,
            },
        }
    }
}

/// What the main page does for a visitor.
#[derive(Debug)]
pub enum PageAction {
    /// Send the visitor to the address.
    Redirect(String),
    /// Show the page.
    Render(IndexTemplate),
}

/// What a `PageAction` holds, as plain values.
pub enum PageActionView {
    Redirect(Seq<char>),
    Render { quote: QuoteView, stylesheet: Seq<char>, tags: Seq<char> },
}

impl View for PageAction {
    type V = PageActionView;

    open spec fn view(&self) -> PageActionView {
        match self {
            PageAction::Redirect(uri) => PageActionView::Redirect(uri@),
            PageAction::Render(page) => PageActionView::Render {
                quote: page.quote@,
                stylesheet: page.stylesheet@,
                tags: page.tags@,
            },
        }
    }
}

/// The address of the page that shows the quote with the id `id`.
pub open spec fn quote_uri(id: Seq<char>) -> Seq<char> {
    seq!['/', '?', 'i', 'd', '='] + id
}

/// The address of the page that shows the quote with the id `id`.
pub fn uri_for_quote(id: &str) -> (uri: String)
    ensures
        uri@ == quote_uri(id@),
{
    proof {
        reveal_strlit("/?id=");
    }
    let mut uri = "/?id=".to_owned();
    uri.append(id);
    assert("/?id="@ =~= seq!['/', '?', 'i', 'd', '=']);
    uri
}

/// The id of the quote that the page shows where the store holds none.
pub const FALLBACK_ID: &'static str = "error";

/// The opening line of that quote.
pub const FALLBACK_WHOS_THERE: &'static str = "Oh no!";

/// The closing line of that quote.
pub const FALLBACK_ANSWER_WHO: &'static str =
    "The quote you were looking for decided to take a day off. Try another!";

/// The source of that quote.
pub const FALLBACK_SOURCE: &'static str = "The Server";

/// The tag line of that quote.
pub const FALLBACK_TAGS: &'static str = "error";

/// The quote that the page shows where the store holds none.
pub fn fallback_quote() -> (quote: Quote)
    ensures
        quote.id@ == FALLBACK_ID@,
        quote.whos_there@ == FALLBACK_WHOS_THERE@,
        quote.answer_who@ == FALLBACK_ANSWER_WHO@,
        quote.source@ == FALLBACK_SOURCE@,
{
    Quote {
        id: FALLBACK_ID.to_owned(),
        whos_there: FALLBACK_WHOS_THERE.to_owned(),
        answer_who: FALLBACK_ANSWER_WHO.to_owned(),
        source: FALLBACK_SOURCE.to_owned(),
    }
}

/// The line of text that lists the tags, with a comma and a space between
/// each two.
pub open spec fn tag_line(tags: Seq<Seq<char>>) -> Seq<char> {
    joined(tags, seq![',', ' '])
}

/// Whether `line` lists the tags of `tags`, each once, in some order.
pub open spec fn is_tag_line(line: Seq<char>, tags: Set<Seq<char>>) -> bool {
    exists|order: Seq<Seq<char>>|
        order.no_duplicates() && order.to_set() == tags && line == #[trigger] tag_line(order)
}

/// What the visitor's tags found: the search for the pieces of the list
/// between its commas, or no criteria where the visitor gave no list.
pub open spec fn tagged_choice(entries: Seq<Entry>, tags: Option<Seq<char>>, draw: int)
    -> TagMatchView {
    match tags {
        Some(list) => tag_match(entries, split_commas(list), draw),
        None => TagMatchView::NoCriteria,
    }
}

/// Whether `action` shows the stored quote with the id `id` and its tags.
pub open spec fn shows_quote(entries: Seq<Entry>, id: Seq<char>, action: PageActionView) -> bool {
    &&& action matches PageActionView::Render { quote, stylesheet, tags }
    &&& quote == entry_with_id(entries, id).quote
    &&& stylesheet == STYLESHEET@
    &&& is_tag_line(tags, entry_with_id(entries, id).tags)
}

/// Whether `action` shows the fallback quote.
pub open spec fn shows_fallback(action: PageActionView) -> bool {
    &&& action matches PageActionView::Render { quote, stylesheet, tags }
    &&& quote.id == FALLBACK_ID@
    &&& quote.whos_there == FALLBACK_WHOS_THERE@
    &&& quote.answer_who == FALLBACK_ANSWER_WHO@
    &&& quote.source == FALLBACK_SOURCE@
    &&& stylesheet == STYLESHEET@
    &&& tags == FALLBACK_TAGS@
}

/// Whether `action` is what the main page does for a visitor. Where the
/// visitor's tags find a quote, the visitor is sent to its page. Else, where
/// the visitor names the id of a stored quote, that quote is shown with its
/// tags. Else the visitor is sent to the page of the quote that `draw`
/// picks, and where the store is empty the page shows the fallback quote.
pub open spec fn page_shows(
    entries: Seq<Entry>,
    params: GetQuoteParamsView,
    draw: int,
    action: PageActionView,
) -> bool {
    match tagged_choice(entries, params.tags, draw) {
        TagMatchView::Found(id) => action == PageActionView::Redirect(quote_uri(id)),
        _ => match params.id {
            Some(id) if has_id(entries, id) => shows_quote(entries, id, action),
            _ => if entries.len() > 0 {
                action == PageActionView::Redirect(quote_uri(drawn(all_ids(entries), draw)))
            } else {
                shows_fallback(action)
            },
        },
    }
}

/// Decides what the main page does for a visitor; `draw` is the random draw
/// for this visit.
pub fn get_main_page_handler(app_state: &AppState, params: &GetQuoteParams, draw: u64) -> (action:
    PageAction)
    requires
        app_state.wf(),
    ensures
        page_shows(app_state.db@, params@, draw as int, action@),
{
    let db = &app_state.db;
    if let Some(tags_query_str) = &params.tags {
        let search_tags_vec = split_at_commas(tags_query_str.as_str());
        if let TagMatch::Found(found_quote_id) = get_tagged_quote_id_from_db(
            db,
            &search_tags_vec,
            draw,
        ) {
            return PageAction::Redirect(uri_for_quote(found_quote_id.as_str()));
        }
    }
    if let Some(id_str) = &params.id {
        if let Ok((quote, tags)) = get_quote_by_id_from_db(db, id_str.as_str()) {
            let line = join_texts(&tags, ", ");
            proof {
                reveal_strlit(", ");
                assert(", "@ =~= seq![',', ' ']);
                assert(line@ == tag_line(texts(tags@)));
            }
            return PageAction::Render(IndexTemplate::new(quote, line));
        }
    }
    match get_random_quote_id_from_db(db, draw) {
        Ok(random_id) => PageAction::Redirect(uri_for_quote(random_id.as_str())),
        Err(_) => PageAction::Render(
            IndexTemplate::new(fallback_quote(), FALLBACK_TAGS.to_owned()),
        ),
    }
}

} // verus!
