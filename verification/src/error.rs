//! Why the quote file could not be loaded.

use vstd::prelude::*;
use vstd::string::StringExecFns;

verus! {

/// A failure on the way from the quote file to the store, with the words of
/// whoever reported it.
#[allow(non_camel_case_types)]
#[derive(Clone, Debug)]
pub enum KnockKnockError {
    /// The quote file could not be opened.
    quotesNotFound(String),
    /// The quote file does not hold quotes.
    quoteMisformat(String),
    /// The address does not name a database.
    InvalidDbUri(String),
}

impl KnockKnockError {
    /// What the failure is reported as: what went wrong, then the words of
    /// whoever reported it.
    pub open spec fn spec_message(self) -> Seq<char> {
        match self {
            KnockKnockError::quotesNotFound(detail) => "could not find quote file: "@ + detail@,
            KnockKnockError::quoteMisformat(detail) => "could not read quote file: "@ + detail@,
            KnockKnockError::InvalidDbUri(detail) => "invalid database uri: "@ + detail@,
        }
    }

    /// What the failure is reported as.
    pub fn message(&self) -> (text: String)
        ensures
            text@ == self.spec_message(),
    {
        match self {
            KnockKnockError::quotesNotFound(detail) => {
                "could not find quote file: ".to_owned().concat(detail.as_str())
            },
            KnockKnockError::quoteMisformat(detail) => {
                "could not read quote file: ".to_owned().concat(detail.as_str())
            },
            KnockKnockError::InvalidDbUri(detail) => {
                "invalid database uri: ".to_owned().concat(detail.as_str())
            },
        }
    }
}

} // verus!
