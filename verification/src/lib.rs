//! Storage rules of a desktop assistant: chat conversations, file
//! checkpoints, configuration transfer and Git inspection.

pub mod chat;
pub mod checkpoint;
pub mod config;
pub mod error;
pub mod git;
pub mod order;
pub mod rows;
pub mod sensitive;
pub mod storage_laws;
pub mod text;
pub mod text_laws;
pub mod theme;
pub mod workspace;
