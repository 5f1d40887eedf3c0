//! The state of the service.

use crate::authjwt::JwtKeys;
use crate::quote::QuoteStore;
use vstd::prelude::*;

verus! {

/// What the service works on: the quote store, the keys of the token
/// authority, and the registration key. The keys and the registration key
/// are set when the service starts and stay as they are.
pub struct AppState {
    pub db: QuoteStore,
    pub jwt_keys: JwtKeys,
    pub reg_key: String,
}

impl AppState {
    /// The validity of the state: that of its store.
    pub open spec fn wf(&self) -> bool {
        self.db.wf()
    }

    /// The state of a service that starts with an empty store.
    pub fn new(jwt_keys: JwtKeys, reg_key: String) -> (state: Self)
        ensures
            state.wf(),
            state.db@.len() == 0,
            state.jwt_keys == jwt_keys,
            state.reg_key == reg_key,
    {
        AppState { db: QuoteStore::new(), jwt_keys, reg_key }
    }
}

} // verus!
