//! Turns evaluated configuration values into JSON text in several dialects,
//! and into a stream of documents.
pub mod escape;
pub mod value;
pub mod manifest;
pub mod formats;
pub mod laws;
pub mod stdlib;
