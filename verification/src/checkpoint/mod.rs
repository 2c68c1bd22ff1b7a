//! Checkpoints: what files held before a tool changed them, so that the
//! change can be shown and taken back.

pub mod after;
pub mod baseline;
pub mod before;
pub mod capture_laws;
pub mod content;
pub mod laws;
pub mod listing;
pub mod listing_laws;
pub mod manifest;
pub mod path_laws;
pub mod paths;
pub mod recording;
pub mod remote;
pub mod remote_laws;
pub mod restore;
pub mod sight;
pub mod walk;
