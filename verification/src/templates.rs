//! What the main page shows.

use crate::quote::Quote;
use vstd::prelude::*;

verus! {

/// The path of the style sheet of the main page.
pub const STYLESHEET: &'static str = "/style.css";

/// The values that the main page is rendered from: a quote, the path of the
/// style sheet, and the quote's tags as one line of text.
#[derive(Debug)]
pub struct IndexTemplate {
    pub quote: Quote,
    pub stylesheet: &'static str,
    pub tags: String,
}

impl IndexTemplate {
    /// The page for `quote` with the tag line `tags`.
    pub fn new(quote: Quote, tags: String) -> (page: Self)
        ensures
            page.quote == quote,
            page.stylesheet@ == STYLESHEET@,
            page.tags == tags,
    {
        IndexTemplate { quote, stylesheet: STYLESHEET, tags }
    }
}

} // verus!
