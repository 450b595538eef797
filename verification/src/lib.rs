//! A load generator's core: the cookie jar, the request renderer, the
//! response parser and the redirect driver of a hand-assembled HTTP/1.x
//! client, with the decisions of its scheduler.

pub mod configuration;
pub mod driver;
pub mod engine;
pub mod error;
pub mod http;
pub mod scheduler;
pub mod summary;
pub mod text;

pub use error::GarmataError;
