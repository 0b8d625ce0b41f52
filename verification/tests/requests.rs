use forum::forum::controller::{
    handle_create_post, handle_create_reply, handle_delete_post, show_post, show_posts,
    CreatePost, CreateReply,
};
use forum::forum::forum_post::ForumPost;
use forum::ForumError;
use rusqlite::Connection;
use std::sync::{Arc, Mutex};

fn shared_forum() -> Arc<Mutex<Connection>> {
    let conn = Connection::open_in_memory().unwrap();
    ForumPost::create_table(&conn).unwrap();
    Arc::new(Mutex::new(conn))
}

fn count_posts(database: &Mutex<Connection>) -> i64 {
    let conn = database.lock().unwrap();
    conn.query_row("SELECT COUNT(*) FROM forum_posts", [], |row| row.get(0)).unwrap()
}

fn post(author: &str, message: &str) -> CreatePost {
    CreatePost { author: author.to_string(), message: message.to_string() }
}

fn reply(author: &str, message: &str) -> CreateReply {
    CreateReply { author: author.to_string(), message: message.to_string() }
}

#[test]
fn a_thread_through_the_requests() {
    let database = shared_forum();
    let root = handle_create_post(&database, post("ann", "A")).unwrap();
    assert_eq!(root.id, 1);
    assert_eq!(root.root_id, None);
    let b = handle_create_reply(&database, root.id, reply("bob", "B")).unwrap();
    assert_eq!(b.root_id, Some(root.id));
    assert_eq!(b.parent_id, Some(root.id));
    let c = handle_create_reply(&database, b.id, reply("cy", "C")).unwrap();
    assert_eq!(c.root_id, Some(root.id));
    assert_eq!(c.parent_id, Some(b.id));
    let d = handle_create_reply(&database, c.id, reply("dee", "D")).unwrap();
    assert_eq!(d.root_id, Some(root.id));
    assert_eq!(d.parent_id, Some(c.id));
    let (shown, tree) = show_post(&database, root.id).unwrap();
    assert_eq!(shown.id, root.id);
    assert_eq!(shown.message, "A");
    assert_eq!(tree.len(), 1);
    assert_eq!(tree[0].post.id, b.id);
    assert_eq!(tree[0].replies[0].post.id, c.id);
    assert_eq!(tree[0].replies[0].replies[0].post.id, d.id);
    handle_delete_post(&database, c.id).unwrap();
    let (shown, tree) = show_post(&database, c.id).unwrap();
    assert_eq!(shown.message, "This message was deleted.");
    assert_eq!(tree[0].post.id, d.id);
    assert!(matches!(handle_delete_post(&database, c.id), Err(ForumError::PostNotFound(3))));
    let listed = show_posts(&database).unwrap();
    assert_eq!(listed.len(), 1);
    assert_eq!(listed[0].id, root.id);
}

#[test]
fn refused_submissions_store_nothing() {
    let database = shared_forum();
    let root = handle_create_post(&database, post("ann", "A")).unwrap();
    assert!(matches!(
        handle_create_post(&database, post(" ", "text")),
        Err(ForumError::ValidationError("Author cannot be empty"))
    ));
    assert!(matches!(
        handle_create_post(&database, post("ann", "\n")),
        Err(ForumError::ValidationError("Message cannot be empty"))
    ));
    assert!(matches!(
        handle_create_reply(&database, root.id, reply("", "text")),
        Err(ForumError::ValidationError("Author cannot be empty"))
    ));
    assert!(matches!(
        handle_create_reply(&database, root.id, reply("bob", "")),
        Err(ForumError::ValidationError("Message cannot be empty"))
    ));
    assert!(matches!(
        handle_create_reply(&database, 77, reply("", "")),
        Err(ForumError::ValidationError("Author cannot be empty"))
    ));
    assert_eq!(count_posts(&database), 1);
}

#[test]
fn reply_to_an_unknown_post_is_not_found() {
    let database = shared_forum();
    handle_create_post(&database, post("ann", "A")).unwrap();
    assert!(matches!(
        handle_create_reply(&database, 77, reply("bob", "B")),
        Err(ForumError::PostNotFound(77))
    ));
    assert!(matches!(show_post(&database, 77), Err(ForumError::PostNotFound(77))));
    assert!(matches!(handle_delete_post(&database, 77), Err(ForumError::PostNotFound(77))));
    assert_eq!(count_posts(&database), 1);
}

#[test]
fn replies_under_one_parent_get_their_own_identifiers() {
    let database = shared_forum();
    let root = handle_create_post(&database, post("ann", "A")).unwrap();
    let parent = root.id;
    let first_handle = Arc::clone(&database);
    let second_handle = Arc::clone(&database);
    let mut ids: Vec<usize> = Vec::new();
    for turn in 0..20 {
        let text = format!("{}", turn);
        let one = handle_create_reply(&first_handle, parent, reply("bob", &text)).unwrap();
        let other = handle_create_reply(&second_handle, parent, reply("cy", &text)).unwrap();
        assert_ne!(one.id, other.id);
        assert_eq!(one.parent_id, Some(parent));
        assert_eq!(other.parent_id, Some(parent));
        assert_eq!(one.root_id, Some(parent));
        assert_eq!(other.root_id, Some(parent));
        ids.push(one.id);
        ids.push(other.id);
    }
    let made = ids.clone();
    ids.sort();
    ids.dedup();
    assert_eq!(ids.len(), 40);
    assert_eq!(count_posts(&database), 41);
    let (_, tree) = show_post(&database, parent).unwrap();
    let shown: Vec<usize> = tree.iter().map(|node| node.post.id).collect();
    assert_eq!(shown, made);
}

#[test]
fn the_lock_is_free_again_after_each_request() {
    let database = shared_forum();
    handle_create_post(&database, post("ann", "A")).unwrap();
    assert!(database.try_lock().is_ok());
    let _ = handle_create_reply(&database, 9, reply("bob", "B"));
    assert!(database.try_lock().is_ok());
    let _ = show_post(&database, 9);
    assert!(database.try_lock().is_ok());
    let _ = handle_delete_post(&database, 9);
    assert!(database.try_lock().is_ok());
    let _ = handle_create_post(&database, post("", ""));
    assert!(database.try_lock().is_ok());
    let _ = show_posts(&database);
    assert!(database.try_lock().is_ok());
}

#[test]
fn deleting_under_an_identifier_that_the_table_cannot_hold() {
    if usize::BITS < 64 {
        return;
    }
    let database = shared_forum();
    handle_create_post(&database, post("ann", "A")).unwrap();
    assert!(matches!(
        handle_delete_post(&database, usize::MAX),
        Err(ForumError::PostNotFound(usize::MAX))
    ));
    assert!(database.try_lock().is_ok());
    assert_eq!(count_posts(&database), 1);
    let (shown, _) = show_post(&database, 1).unwrap();
    assert_eq!(shown.message, "A");
}
