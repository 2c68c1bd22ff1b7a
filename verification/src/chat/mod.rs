//! Conversations and their messages.

pub mod context_laws;
pub mod exchange;
pub mod laws;
pub mod listing;
pub mod listing_laws;
pub mod record_laws;
pub mod remove;
pub mod rows;
pub mod settings;
pub mod snippets;
pub mod store;
