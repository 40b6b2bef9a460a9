//! The configuration model and the rules that check and resolve it.
pub mod types;
pub mod validate;
pub mod resolve;
pub mod summary;
pub mod laws;
