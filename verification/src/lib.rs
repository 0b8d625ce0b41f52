//! A threaded discussion forum: posts kept in a relational table, and the
//! reply tree of a thread rebuilt from its flat rows.

pub mod config;
pub mod error;
pub mod forum;

pub use config::AppConfig;
pub use error::{ForumError, ForumResult};
