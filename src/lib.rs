//! A small directory of user accounts: credential hashing and verification,
//! validation of account edits, and the in-memory directory that is loaded
//! from and written back to a backing file by the surrounding application.

pub mod text;
pub mod credential;
pub mod error;
pub mod model;
pub mod form;
pub mod config;
pub mod template;
