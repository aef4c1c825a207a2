pub mod error;
pub mod format;
pub mod laws;
pub mod notebook;
pub mod roundtrip;
pub mod text;
pub mod tools;
