//! What each request to the forum comes to, on the connection that all
//! requests share.

use crate::error::{ForumError, ForumResult};
use crate::forum::forum_post::{all_redacted, posts_view, refusal, storable, validate, ForumPost};
use crate::forum::thread::{forest_view, is_reply_tree, linked, posts_in, PostTreeNode};
use rusqlite::Connection;
use std::sync::{Mutex, MutexGuard};
use vstd::prelude::*;

verus! {

/// The lock round the shared connection.
#[verifier::external_type_specification]
#[verifier::external_body]
#[verifier::reject_recursive_types(T)]
pub struct ExMutex<T: ?Sized>(std::sync::Mutex<T>);

/// The lock while it is held; it is released when this value is dropped.
#[verifier::external_type_specification]
#[verifier::external_body]
#[verifier::reject_recursive_types(T)]
pub struct ExMutexGuard<'a, T: ?Sized + 'a>(std::sync::MutexGuard<'a, T>);

/// Takes the lock with `Mutex::lock`, which waits until it is free. Where an
/// earlier holder panicked, the lock is poisoned and the description of that
/// failure is returned instead. A thread that holds the lock must not
/// call this: it would wait for itself.
#[verifier::external_body]
fn lock<'a>(database: &'a Mutex<Connection>) -> (held: Result<MutexGuard<'a, Connection>, String>) {
    match database.lock() {
        Ok(guard) => Ok(guard),
        Err(poison_err) => Err(format!("{:?}", poison_err)),
    }
}

/// The connection behind a lock that is held, by `MutexGuard::deref`.
#[verifier::external_body]
fn connection<'a, 'b>(guard: &'a MutexGuard<'b, Connection>) -> (conn: &'a Connection) {
    guard
}

/// Takes the shared connection for the length of one request. No request
/// below asks for it twice, so none waits for itself.
fn get_connection<'a>(database: &'a Mutex<Connection>) -> (held: ForumResult<
    MutexGuard<'a, Connection>,
>)
    ensures
        held matches Err(e) ==> e is LockError,
{
    match lock(database) {
        Ok(guard) => Ok(guard),
        Err(why) => Err(ForumError::LockError(why)),
    }
}

/// The submission of a new thread.
#[derive(Debug, Clone)]
pub struct CreatePost {
    pub author: String,
    pub message: String,
}

/// The submission of a reply.
#[derive(Debug, Clone)]
pub struct CreateReply {
    pub author: String,
    pub message: String,
}

/// The front page: the root posts, newest first.
pub fn show_posts(database: &Mutex<Connection>) -> (listed: ForumResult<Vec<ForumPost>>)
    ensures
        match listed {
            Ok(posts) => all_redacted(posts_view(posts@)),
            Err(e) => e is LockError || e is DatabaseError,
        },
{
    let guard = match get_connection(database) {
        Ok(guard) => guard,
        Err(e) => { return Err(e); },
    };
    ForumPost::get_ops(connection(&guard))
}

/// Starts a thread from a submission. A submission that is refused never
/// reaches the lock.
pub fn handle_create_post(database: &Mutex<Connection>, payload: CreatePost) -> (created:
    ForumResult<ForumPost>)
    ensures
        match created {
            Ok(post) => {
                &&& refusal(payload.author@, payload.message@) is None
                &&& post@.is_root()
                &&& post@.parent_id is None
                &&& post@.author == payload.author@
                &&& post@.message == payload.message@
                &&& post@.deleted_at is None
            },
            Err(ForumError::ValidationError(reason)) => refusal(
                payload.author@,
                payload.message@,
            ) == Some(reason@),
            Err(e) => (e is LockError || e is DatabaseError) && refusal(
                payload.author@,
                payload.message@,
            ) is None,
        },
{
    match validate(payload.author.as_str(), payload.message.as_str()) {
        Err(e) => { return Err(e); },
        Ok(_) => {},
    }
    let guard = match get_connection(database) {
        Ok(guard) => guard,
        Err(e) => { return Err(e); },
    };
    ForumPost::post_save(connection(&guard), payload.author, payload.message)
}

/// Deletes the post `post_id`.
pub fn handle_delete_post(database: &Mutex<Connection>, post_id: usize) -> (done: ForumResult<()>)
    ensures
        done matches Err(e) ==> e == ForumError::PostNotFound(post_id) || e is LockError
            || e is DatabaseError,
        !storable(post_id) ==> (done matches Err(e) && (e == ForumError::PostNotFound(post_id)
            || e is LockError)),
{
    let guard = match get_connection(database) {
        Ok(guard) => guard,
        Err(e) => { return Err(e); },
    };
    ForumPost::soft_delete_post(connection(&guard), post_id)
}

/// Answers the post `parent_id` from a submission. The parent is looked up
/// and the reply stored while the lock is held once, so that no other
/// request comes between the two.
pub fn handle_create_reply(
    database: &Mutex<Connection>,
    parent_id: usize,
    payload: CreateReply,
) -> (created: ForumResult<ForumPost>)
    ensures
        match created {
            Ok(post) => {
                &&& refusal(payload.author@, payload.message@) is None
                &&& post@.is_reply()
                &&& post@.parent_id == Some(parent_id)
                &&& post@.author == payload.author@
                &&& post@.message == payload.message@
                &&& post@.deleted_at is None
            },
            Err(ForumError::ValidationError(reason)) => refusal(
                payload.author@,
                payload.message@,
            ) == Some(reason@),
            Err(e) => (e == ForumError::PostNotFound(parent_id) || e is LockError
                || e is DatabaseError) && refusal(payload.author@, payload.message@) is None,
        },
{
    match validate(payload.author.as_str(), payload.message.as_str()) {
        Err(e) => { return Err(e); },
        Ok(_) => {},
    }
    let guard = match get_connection(database) {
        Ok(guard) => guard,
        Err(e) => { return Err(e); },
    };
    let conn = connection(&guard);
    let parent = match ForumPost::get(conn, parent_id) {
        Ok(parent) => parent,
        Err(e) => { return Err(e); },
    };
    parent.reply_save(conn, payload.author, payload.message)
}

/// The page of one post: the post itself and the reply tree below it.
pub fn show_post(database: &Mutex<Connection>, post_id: usize) -> (page: ForumResult<
    (ForumPost, Vec<PostTreeNode>),
>)
    ensures
        match page {
            Ok((post, tree)) => {
                &&& post.id == post_id
                &&& post@.is_redacted()
                &&& is_reply_tree(forest_view(tree@), post_id)
                &&& linked(forest_view(tree@), post_id)
                &&& all_redacted(posts_in(forest_view(tree@)))
            },
            Err(e) => e == ForumError::PostNotFound(post_id) || e is LockError
                || e is DatabaseError,
        },
{
    let guard = match get_connection(database) {
        Ok(guard) => guard,
        Err(e) => { return Err(e); },
    };
    let conn = connection(&guard);
    let found_post = match ForumPost::get(conn, post_id) {
        Ok(post) => post,
        Err(e) => { return Err(e); },
    };
    match PostTreeNode::build_tree(conn, post_id) {
        Ok(reply_tree) => Ok((found_post, reply_tree)),
        Err(e) => Err(e),
    }
}

} // verus!
