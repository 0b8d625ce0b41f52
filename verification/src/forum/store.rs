//! The statements that the forum runs on its table, and the calls that run
//! them. Nothing here is proved: each function says what it relies on.

use crate::forum::forum_post::{all_redacted, posts_view, ForumPost};
use chrono::NaiveDateTime;
use rusqlite::{Connection, OptionalExtension};
use vstd::prelude::*;

verus! {

/// A connection to the database. Nothing is known of what it holds.
#[verifier::external_type_specification]
#[verifier::external_body]
pub struct ExConnection(rusqlite::Connection);

/// A row of a query's result, as the database hands it to the reader.
#[verifier::external_type_specification]
#[verifier::external_body]
pub struct ExRow<'stmt>(rusqlite::Row<'stmt>);

/// The table of posts.
pub const FORUM_POSTS_SQL: &'static str = "
CREATE TABLE IF NOT EXISTS forum_posts (
    id INTEGER PRIMARY KEY AUTOINCREMENT,
    root_id INTEGER,
    parent_id INTEGER,
    created_at DATETIME DEFAULT CURRENT_TIMESTAMP,
    deleted_at DATETIME DEFAULT NULL,
    author TEXT NOT NULL,
    message TEXT NOT NULL,
    FOREIGN KEY (root_id) REFERENCES forum_posts(id) ON DELETE CASCADE,
    FOREIGN KEY (parent_id) REFERENCES forum_posts(id) ON DELETE CASCADE
);
";

/// The post with a given identifier.
pub const SELECT_POST_SQL: &'static str = "
SELECT id, root_id, parent_id, created_at, deleted_at, author, message
FROM forum_posts
WHERE id = ?1
";

/// The root posts, newest first.
pub const SELECT_ROOTS_SQL: &'static str = "
SELECT id, root_id, parent_id, created_at, deleted_at, author, message
FROM forum_posts
WHERE root_id IS NULL
ORDER BY created_at DESC
";

/// The replies of one thread, oldest first.
pub const SELECT_THREAD_SQL: &'static str = "
SELECT id, root_id, parent_id, created_at, deleted_at, author, message
FROM forum_posts
WHERE root_id = ?1
ORDER BY created_at ASC
";

/// A new post.
pub const INSERT_POST_SQL: &'static str =
    "INSERT INTO forum_posts (root_id, parent_id, created_at, author, message) VALUES (?1, ?2, ?3, ?4, ?5)";

/// The deletion mark, on a post that has none yet.
pub const MARK_DELETED_SQL: &'static str =
    "UPDATE forum_posts SET deleted_at = ?1 WHERE id = ?2 AND deleted_at IS NULL";

/// Reads the seven columns of a row with `Row::get`, in the order in which
/// the statements above select them. Nothing is claimed of what they hold.
#[verifier::external_body]
pub(crate) fn read_columns(row: &rusqlite::Row<'_>) -> (read: Result<
    ForumPost,
    rusqlite::Error,
>) {
    Ok(
        ForumPost {
            id: row.get(0)?,
            root_id: row.get(1)?,
            parent_id: row.get(2)?,
            created_at: row.get(3)?,
            deleted_at: row.get(4)?,
            author: row.get(5)?,
            message: row.get(6)?,
        },
    )
}

/// Runs a query on one key with `Statement::query_row`, which reads the first
/// row, if there is one, through `ForumPost::get_from_db`; `optional` turns
/// the absence of a row into `None`. The post is what that reader returned,
/// so it is redacted.
#[verifier::external_body]
pub(crate) fn query_post(conn: &Connection, sql: &str, key: usize) -> (fetched: Result<
    Option<ForumPost>,
    rusqlite::Error,
>)
    ensures
        fetched matches Ok(Some(post)) ==> post@.is_redacted(),
{
    conn.prepare(sql)?.query_row([key], |row| ForumPost::get_from_db(row)).optional()
}

/// Runs a query on at most one key with `Statement::query_map`, which reads
/// each row of the result through `ForumPost::get_from_db`, and collects the
/// posts in the order of the rows. Each post is what that reader returned,
/// so it is redacted.
#[verifier::external_body]
pub(crate) fn query_posts(conn: &Connection, sql: &str, key: Option<usize>) -> (fetched: Result<
    Vec<ForumPost>,
    rusqlite::Error,
>)
    ensures
        fetched matches Ok(posts) ==> all_redacted(posts_view(posts@)),
{
    conn.prepare(sql)?.query_map(
        rusqlite::params_from_iter(key.iter()),
        |row| ForumPost::get_from_db(row),
    )?.collect()
}

/// Runs statements that take no parameters with `Connection::execute_batch`.
#[verifier::external_body]
pub(crate) fn execute_batch(conn: &Connection, sql: &str) -> (run: Result<(), rusqlite::Error>) {
    conn.execute_batch(sql)
}

/// Runs the insertion with `Connection::execute` and returns the number of
/// rows that it changed.
#[verifier::external_body]
pub(crate) fn execute_insert(
    conn: &Connection,
    sql: &str,
    root_id: Option<usize>,
    parent_id: Option<usize>,
    created_at: &NaiveDateTime,
    author: &str,
    message: &str,
) -> (changed: Result<usize, rusqlite::Error>) {
    conn.execute(sql, (root_id, parent_id, created_at, author, message))
}

/// Runs the update with `Connection::execute` and returns the number of rows
/// that it changed.
#[verifier::external_body]
pub(crate) fn execute_mark(
    conn: &Connection,
    sql: &str,
    deleted_at: &NaiveDateTime,
    id: usize,
) -> (changed: Result<usize, rusqlite::Error>) {
    conn.execute(sql, (deleted_at, id))
}

/// `Connection::last_insert_rowid` gives the row identifier of the latest
/// insertion on the connection that succeeded.
pub assume_specification[ rusqlite::Connection::last_insert_rowid ](
    conn: &rusqlite::Connection,
) -> i64
;

/// The local time of the machine, read with `chrono::Local::now`.
#[verifier::external_body]
pub(crate) fn now() -> (instant: NaiveDateTime) {
    chrono::Local::now().naive_local()
}

} // verus!
