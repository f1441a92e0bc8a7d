//! Verified core of the Google Workspace command-line helpers.
pub mod a1;
pub mod discovery;
pub mod docs;
pub mod drive;
pub mod error;
pub mod gmail;
pub mod json;
pub mod sheets;
pub mod text;
