//! Core of a small quote service: a quote store with exact multi-tag
//! matching, and a token authority that issues and verifies signed,
//! time-limited credentials.

pub mod api;
pub mod authjwt;
pub mod config;
pub mod error;
pub mod quote;
pub mod state;
pub mod store_laws;
pub mod tags;
pub mod templates;
pub mod text;
pub mod web;

pub use state::AppState;
