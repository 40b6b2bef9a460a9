//! A multi-candidate streaming gateway: configuration model, validation,
//! candidate resolution, race decisions and stream framing.
pub mod domain;
pub mod text;
pub mod downstream;
pub mod group;
pub mod key_pool;
pub mod adapters;
pub mod control;
pub mod catalog;
pub mod runtime;
pub mod storage;
pub mod config;
pub mod proxy;
pub mod gemini;
pub mod schema;
pub mod runner;
pub mod loadtest;
pub mod codec;
pub mod request_laws;
