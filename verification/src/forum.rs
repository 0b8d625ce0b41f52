//! Posts, their store and the reply tree of a thread.

pub mod controller;
pub mod forum_post;
pub mod store;
pub mod text;
pub mod thread;
pub mod thread_laws;
pub mod thread_model;

pub use forum_post::{ForumPost, PostView};
pub use thread::{PostTreeNode, ThreadNode};
