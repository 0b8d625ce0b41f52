//! A post of the forum and what the store does with it.

use crate::error::{ForumError, ForumResult};
use crate::forum::store::{
    execute_batch, execute_insert, execute_mark, now, query_post, query_posts, read_columns,
    FORUM_POSTS_SQL, INSERT_POST_SQL, MARK_DELETED_SQL, SELECT_POST_SQL, SELECT_ROOTS_SQL,
};
use crate::forum::text::{blank, is_blank};
use chrono::NaiveDateTime;
use rusqlite::Connection;
use vstd::prelude::*;

verus! {

/// The instant at which a post was written or deleted. It is carried, never
/// looked into.
#[verifier::external_type_specification]
#[verifier::external_body]
pub struct ExInstant(chrono::NaiveDateTime);

/// `NaiveDateTime` is a `Copy` type whose `Clone` is derived: a clone is the
/// same instant.
pub assume_specification[ <chrono::NaiveDateTime as Clone>::clone ](
    instant: &chrono::NaiveDateTime,
) -> (copy: chrono::NaiveDateTime)
    ensures
        copy == *instant,
;

/// One message of a thread: a root post, or a reply to another post.
#[derive(Debug, Clone)]
pub struct ForumPost {
    pub id: usize,
    /// The post at the top of the thread; `None` on that post itself.
    pub root_id: Option<usize>,
    /// The post that this one answers; `None` on a root post.
    pub parent_id: Option<usize>,
    pub author: String,
    pub created_at: NaiveDateTime,
    /// `Some` once the post has been deleted.
    pub deleted_at: Option<NaiveDateTime>,
    pub message: String,
}

/// A post as a mathematical value: the texts are sequences of characters.
pub struct PostView {
    pub id: usize,
    pub root_id: Option<usize>,
    pub parent_id: Option<usize>,
    pub author: Seq<char>,
    pub created_at: NaiveDateTime,
    pub deleted_at: Option<NaiveDateTime>,
    pub message: Seq<char>,
}

impl View for ForumPost {
    type V = PostView;

    open spec fn view(&self) -> PostView {
        PostView {
            id: self.id,
            root_id: self.root_id,
            parent_id: self.parent_id,
            author: self.author@,
            created_at: self.created_at,
            deleted_at: self.deleted_at,
            message: self.message@,
        }
    }
}

/// The views of a sequence of posts, in the same order.
pub open spec fn posts_view(posts: Seq<ForumPost>) -> Seq<PostView> {
    Seq::new(posts.len(), |i: int| posts[i]@)
}

/// What is shown in place of the message of a deleted post.
pub const DELETED_MESSAGE: &'static str = "This message was deleted.";

/// Why a submission without an author is refused.
pub const AUTHOR_EMPTY: &'static str = "Author cannot be empty";

/// Why a submission without a message is refused.
pub const MESSAGE_EMPTY: &'static str = "Message cannot be empty";

impl PostView {
    /// A post at the top of its thread.
    pub open spec fn is_root(self) -> bool {
        self.root_id is None
    }

    /// A post that answers another one.
    pub open spec fn is_reply(self) -> bool {
        self.root_id is Some && self.parent_id is Some
    }

    /// The post at the top of the thread that this post belongs to.
    pub open spec fn thread_id(self) -> usize {
        match self.root_id {
            Some(root) => root,
            None => self.id,
        }
    }

    /// The post as it is shown: a deleted post keeps everything but its
    /// message.
    pub open spec fn redacted(self) -> PostView {
        if self.deleted_at is Some {
            PostView { message: DELETED_MESSAGE@, ..self }
        } else {
            self
        }
    }

    /// The post once it has been deleted at `at`, as it is shown.
    pub open spec fn deleted(self, at: NaiveDateTime) -> PostView {
        PostView { deleted_at: Some(at), message: DELETED_MESSAGE@, ..self }
    }

    /// The post after the post `id` has been deleted at `at`: a post that
    /// was deleted before keeps its mark.
    pub open spec fn deleted_if(self, id: usize, at: NaiveDateTime) -> PostView {
        if self.id == id && self.deleted_at is None {
            self.deleted(at)
        } else {
            self
        }
    }

    /// Whether the post can be shown as it is.
    pub open spec fn is_redacted(self) -> bool {
        self.deleted_at is Some ==> self.message == DELETED_MESSAGE@
    }
}

/// A reply belongs to the thread of the post it answers: its `root_id` is
/// that post where that post is a root, and the `root_id` of that post where
/// it is a reply itself. So `root_id` names the top of the thread however
/// deep the reply stands.
pub proof fn lemma_reply_joins_thread(parent: PostView, reply: PostView)
    requires
        reply.root_id == Some(parent.thread_id()),
    ensures
        parent.is_root() ==> reply.root_id == Some(parent.id),
        !parent.is_root() ==> reply.root_id == parent.root_id,
        reply.thread_id() == parent.thread_id(),
{
}

/// Whether each of `rows` can be shown as it is.
pub open spec fn all_redacted(rows: Seq<PostView>) -> bool {
    forall|i: int| 0 <= i < rows.len() ==> (#[trigger] rows[i]).is_redacted()
}

/// What a submission must meet: an author and a message that are not empty
/// once trimmed.
pub open spec fn refusal(author: Seq<char>, message: Seq<char>) -> Option<Seq<char>> {
    if blank(author) {
        Some(AUTHOR_EMPTY@)
    } else if blank(message) {
        Some(MESSAGE_EMPTY@)
    } else {
        None
    }
}

/// Checks a submission, the author first.
pub fn validate(author: &str, message: &str) -> (checked: ForumResult<()>)
    ensures
        match checked {
            Ok(_) => refusal(author@, message@) is None,
            Err(e) => e matches ForumError::ValidationError(reason) && refusal(author@, message@)
                == Some(reason@),
        },
{
    if is_blank(author) {
        return Err(ForumError::ValidationError(AUTHOR_EMPTY));
    }
    if is_blank(message) {
        return Err(ForumError::ValidationError(MESSAGE_EMPTY));
    }
    Ok(())
}

impl ForumPost {
    /// Makes the table of posts in a database that has none yet.
    pub fn create_table(conn: &Connection) -> (made: ForumResult<()>)
        ensures
            made matches Err(e) ==> e is DatabaseError,
    {
        match execute_batch(conn, FORUM_POSTS_SQL) {
            Ok(_) => Ok(()),
            Err(e) => Err(ForumError::DatabaseError(e)),
        }
    }

    /// The post at the top of the thread that this post belongs to.
    pub fn thread_id(&self) -> (root: usize)
        ensures
            root == self@.thread_id(),
    {
        match self.root_id {
            Some(root) => root,
            None => self.id,
        }
    }

    /// The post as it is shown: the message of a deleted post gives way to
    /// `DELETED_MESSAGE`, and nothing else changes.
    pub fn redacted(self) -> (shown: ForumPost)
        ensures
            shown@ == self@.redacted(),
    {
        let mut shown = self;
        if shown.deleted_at.is_some() {
            shown.message = DELETED_MESSAGE.to_owned();
        }
        shown
    }

    /// Reads a post from a row of the table, as it is shown.
    pub fn get_from_db(row: &rusqlite::Row<'_>) -> (read: Result<ForumPost, rusqlite::Error>)
        ensures
            read matches Ok(post) ==> post@.is_redacted(),
    {
        match read_columns(row) {
            Ok(stored) => Ok(stored.redacted()),
            Err(e) => Err(e),
        }
    }

    /// What a lookup by `id` comes to, given what the database answered. A
    /// row under another identifier is no answer to the lookup.
    pub fn found(id: usize, fetched: Result<Option<ForumPost>, rusqlite::Error>) -> (found:
        ForumResult<ForumPost>)
        ensures
            found == match fetched {
                Ok(Some(post)) => if post.id == id {
                    Ok::<ForumPost, ForumError>(post)
                } else {
                    Err(ForumError::PostNotFound(id))
                },
                Ok(None) => Err(ForumError::PostNotFound(id)),
                Err(e) => Err(ForumError::DatabaseError(e)),
            },
    {
        match fetched {
            Ok(Some(post)) => if post.id == id {
                Ok(post)
            } else {
                Err(ForumError::PostNotFound(id))
            },
            Ok(None) => Err(ForumError::PostNotFound(id)),
            Err(e) => Err(ForumError::DatabaseError(e)),
        }
    }

    /// The post with identifier `id`, deleted or not, as it is shown.
    pub fn get(conn: &Connection, id: usize) -> (found: ForumResult<ForumPost>)
        ensures
            match found {
                Ok(post) => post.id == id && post@.is_redacted(),
                Err(e) => e == ForumError::PostNotFound(id) || e is DatabaseError,
            },
    {
        ForumPost::found(id, query_post(conn, SELECT_POST_SQL, id))
    }

    /// The root posts, newest first, each as it is shown.
    pub fn get_ops(conn: &Connection) -> (listed: ForumResult<Vec<ForumPost>>)
        ensures
            match listed {
                Ok(posts) => all_redacted(posts_view(posts@)),
                Err(e) => e is DatabaseError,
            },
    {
        match query_posts(conn, SELECT_ROOTS_SQL, None) {
            Ok(posts) => Ok(posts),
            Err(e) => Err(ForumError::DatabaseError(e)),
        }
    }

    /// The post that an insertion has stored under `rowid`.
    pub fn stored(
        rowid: i64,
        root_id: Option<usize>,
        parent_id: Option<usize>,
        author: String,
        created_at: NaiveDateTime,
        message: String,
    ) -> (post: ForumPost)
        ensures
            post@ == (PostView {
                id: rowid as usize,
                root_id,
                parent_id,
                author: author@,
                created_at,
                deleted_at: None,
                message: message@,
            }),
    {
        ForumPost {
            id: #[verifier::truncate]
            (rowid as usize),
            root_id,
            parent_id,
            author,
            created_at,
            deleted_at: None,
            message,
        }
    }

    /// Stores a post under `root_id` and `parent_id`, written now.
    fn save(
        conn: &Connection,
        root_id: Option<usize>,
        parent_id: Option<usize>,
        author: String,
        message: String,
    ) -> (saved: ForumResult<ForumPost>)
        ensures
            match saved {
                Ok(post) => {
                    &&& refusal(author@, message@) is None
                    &&& post@.root_id == root_id
                    &&& post@.parent_id == parent_id
                    &&& post@.author == author@
                    &&& post@.message == message@
                    &&& post@.deleted_at is None
                },
                Err(ForumError::ValidationError(reason)) => refusal(author@, message@) == Some(
                    reason@,
                ),
                Err(e) => e is DatabaseError && refusal(author@, message@) is None,
            },
    {
        match validate(author.as_str(), message.as_str()) {
            Err(e) => { return Err(e); },
            Ok(_) => {},
        }
        let created_at = now();
        match execute_insert(
            conn,
            INSERT_POST_SQL,
            root_id,
            parent_id,
            &created_at,
            author.as_str(),
            message.as_str(),
        ) {
            Ok(_) => Ok(
                ForumPost::stored(
                    conn.last_insert_rowid(),
                    root_id,
                    parent_id,
                    author,
                    created_at,
                    message,
                ),
            ),
            Err(e) => Err(ForumError::DatabaseError(e)),
        }
    }

    /// Starts a thread: stores a root post by `author` and returns it with
    /// the identifier that the store gave it. Nothing is stored for a
    /// submission that is refused.
    pub fn post_save(conn: &Connection, author: String, message: String) -> (saved: ForumResult<
        ForumPost,
    >)
        ensures
            match saved {
                Ok(post) => {
                    &&& refusal(author@, message@) is None
                    &&& post@.root_id is None
                    &&& post@.parent_id is None
                    &&& post@.author == author@
                    &&& post@.message == message@
                    &&& post@.deleted_at is None
                },
                Err(ForumError::ValidationError(reason)) => refusal(author@, message@) == Some(
                    reason@,
                ),
                Err(e) => e is DatabaseError && refusal(author@, message@) is None,
            },
    {
        ForumPost::save(conn, None, None, author, message)
    }

    /// Answers this post: stores a reply by `author` in the thread of this
    /// post and returns it with the identifier that the store gave it.
    /// Nothing is stored for a submission that is refused.
    pub fn reply_save(&self, conn: &Connection, author: String, message: String) -> (saved:
        ForumResult<ForumPost>)
        ensures
            match saved {
                Ok(post) => {
                    &&& refusal(author@, message@) is None
                    &&& post@.root_id == Some(self@.thread_id())
                    &&& post@.thread_id() == self@.thread_id()
                    &&& post@.parent_id == Some(self.id)
                    &&& post@.author == author@
                    &&& post@.message == message@
                    &&& post@.deleted_at is None
                },
                Err(ForumError::ValidationError(reason)) => refusal(author@, message@) == Some(
                    reason@,
                ),
                Err(e) => e is DatabaseError && refusal(author@, message@) is None,
            },
    {
        ForumPost::save(conn, Some(self.thread_id()), Some(self.id), author, message)
    }

    /// What a deletion of `id` comes to, given what the database answered:
    /// the number of rows that took the mark.
    pub fn deleted(id: usize, marked: Result<usize, rusqlite::Error>) -> (done: ForumResult<()>)
        ensures
            done == match marked {
                Ok(changed) => if changed == 0 {
                    Err::<(), ForumError>(ForumError::PostNotFound(id))
                } else {
                    Ok(())
                },
                Err(e) => Err(ForumError::DatabaseError(e)),
            },
    {
        match marked {
            Ok(changed) => if changed == 0 {
                Err(ForumError::PostNotFound(id))
            } else {
                Ok(())
            },
            Err(e) => Err(ForumError::DatabaseError(e)),
        }
    }

    /// Marks the post `id` as deleted now, unless there is no such post or
    /// it is deleted already. The table is not asked where it cannot hold `id`.
    pub fn soft_delete_post(conn: &Connection, id: usize) -> (done: ForumResult<()>)
        ensures
            done matches Err(e) ==> e == ForumError::PostNotFound(id) || e is DatabaseError,
            !storable(id) ==> done == Err::<(), ForumError>(ForumError::PostNotFound(id)),
    {
        if id as u64 > 0x7fff_ffff_ffff_ffff {
            return Err(ForumError::PostNotFound(id));
        }
        let deleted_at = now();
        ForumPost::deleted(id, execute_mark(conn, MARK_DELETED_SQL, &deleted_at, id))
    }
}

/// Whether the table can hold a post under `id`: its identifiers are signed
/// integers of 64 bits, so there is no post under a greater one.
pub open spec fn storable(id: usize) -> bool {
    id <= i64::MAX
}

} // verus!
