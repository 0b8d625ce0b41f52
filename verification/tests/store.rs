use chrono::NaiveDateTime;
use forum::forum::forum_post::{
    validate, ForumPost, AUTHOR_EMPTY, DELETED_MESSAGE, MESSAGE_EMPTY,
};
use forum::ForumError;
use rusqlite::Connection;

fn open_forum() -> Connection {
    let conn = Connection::open_in_memory().unwrap();
    ForumPost::create_table(&conn).unwrap();
    conn
}

fn count_posts(conn: &Connection) -> i64 {
    conn.query_row("SELECT COUNT(*) FROM forum_posts", [], |row| row.get(0)).unwrap()
}

fn instant(seconds: i64) -> NaiveDateTime {
    chrono::DateTime::from_timestamp(seconds, 0).unwrap().naive_utc()
}

fn plain_post(id: usize, deleted_at: Option<NaiveDateTime>, message: &str) -> ForumPost {
    ForumPost {
        id,
        root_id: None,
        parent_id: None,
        author: "ann".to_string(),
        created_at: instant(1_700_000_000),
        deleted_at,
        message: message.to_string(),
    }
}

#[test]
fn root_post_is_stored_and_found_again() {
    let conn = open_forum();
    let saved = ForumPost::post_save(&conn, "ann".to_string(), "hello".to_string()).unwrap();
    assert_eq!(saved.id, 1);
    assert_eq!(saved.root_id, None);
    assert_eq!(saved.parent_id, None);
    assert_eq!(saved.deleted_at, None);
    let found = ForumPost::get(&conn, saved.id).unwrap();
    assert_eq!(found.id, 1);
    assert_eq!(found.root_id, None);
    assert_eq!(found.parent_id, None);
    assert_eq!(found.author, "ann");
    assert_eq!(found.message, "hello");
    assert_eq!(found.created_at, saved.created_at);
    assert_eq!(found.deleted_at, None);
}

#[test]
fn texts_are_stored_untrimmed() {
    let conn = open_forum();
    let saved = ForumPost::post_save(&conn, "  ann ".to_string(), "\thello\n".to_string()).unwrap();
    let found = ForumPost::get(&conn, saved.id).unwrap();
    assert_eq!(found.author, "  ann ");
    assert_eq!(found.message, "\thello\n");
}

#[test]
fn identifiers_grow_and_are_not_reused() {
    let conn = open_forum();
    let first = ForumPost::post_save(&conn, "ann".to_string(), "one".to_string()).unwrap();
    let second = ForumPost::post_save(&conn, "bob".to_string(), "two".to_string()).unwrap();
    let third = first.reply_save(&conn, "cy".to_string(), "three".to_string()).unwrap();
    assert_eq!((first.id, second.id, third.id), (1, 2, 3));
    ForumPost::soft_delete_post(&conn, third.id).unwrap();
    let fourth = ForumPost::post_save(&conn, "dee".to_string(), "four".to_string()).unwrap();
    assert_eq!(fourth.id, 4);
}

#[test]
fn unknown_post_is_not_found() {
    let conn = open_forum();
    match ForumPost::get(&conn, 7) {
        Err(ForumError::PostNotFound(id)) => assert_eq!(id, 7),
        other => panic!("unexpected: {:?}", other),
    }
}

#[test]
fn lookup_outcomes() {
    let post = plain_post(3, None, "hi");
    assert_eq!(ForumPost::found(3, Ok(Some(post.clone()))).unwrap().id, 3);
    assert!(matches!(ForumPost::found(4, Ok(Some(post))), Err(ForumError::PostNotFound(4))));
    assert!(matches!(ForumPost::found(9, Ok(None)), Err(ForumError::PostNotFound(9))));
    assert!(matches!(
        ForumPost::found(9, Err(rusqlite::Error::InvalidQuery)),
        Err(ForumError::DatabaseError(rusqlite::Error::InvalidQuery))
    ));
}

#[test]
fn replies_name_the_top_of_their_thread() {
    let conn = open_forum();
    let root = ForumPost::post_save(&conn, "ann".to_string(), "root".to_string()).unwrap();
    let first = root.reply_save(&conn, "bob".to_string(), "level 1".to_string()).unwrap();
    assert_eq!(first.root_id, Some(root.id));
    assert_eq!(first.parent_id, Some(root.id));
    let second = first.reply_save(&conn, "cy".to_string(), "level 2".to_string()).unwrap();
    assert_eq!(second.root_id, Some(root.id));
    assert_eq!(second.parent_id, Some(first.id));
    let third = second.reply_save(&conn, "dee".to_string(), "level 3".to_string()).unwrap();
    assert_eq!(third.root_id, Some(root.id));
    assert_eq!(third.parent_id, Some(second.id));
    let fourth = third.reply_save(&conn, "eve".to_string(), "level 4".to_string()).unwrap();
    assert_eq!(fourth.root_id, Some(root.id));
    assert_eq!(fourth.parent_id, Some(third.id));
    for reply in [&first, &second, &third, &fourth] {
        let found = ForumPost::get(&conn, reply.id).unwrap();
        assert_eq!(found.root_id, Some(root.id));
        assert_eq!(found.parent_id, reply.parent_id);
        assert_eq!(found.thread_id(), root.id);
        let top = ForumPost::get(&conn, found.root_id.unwrap()).unwrap();
        assert_eq!(top.root_id, None);
    }
    assert_eq!(root.thread_id(), root.id);
}

#[test]
fn reply_gets_its_own_identifier() {
    let conn = open_forum();
    let root = ForumPost::post_save(&conn, "ann".to_string(), "root".to_string()).unwrap();
    let other = ForumPost::post_save(&conn, "bob".to_string(), "other".to_string()).unwrap();
    let reply = root.reply_save(&conn, "cy".to_string(), "reply".to_string()).unwrap();
    assert_eq!(other.id, 2);
    assert_eq!(reply.id, 3);
    let found = ForumPost::get(&conn, reply.id).unwrap();
    assert_eq!(found.message, "reply");
    assert_eq!(found.author, "cy");
}

#[test]
fn deleted_post_shows_the_placeholder() {
    let conn = open_forum();
    let root = ForumPost::post_save(&conn, "ann".to_string(), "root".to_string()).unwrap();
    let reply = root.reply_save(&conn, "bob".to_string(), "secret".to_string()).unwrap();
    ForumPost::soft_delete_post(&conn, reply.id).unwrap();
    let found = ForumPost::get(&conn, reply.id).unwrap();
    assert_eq!(found.message, "This message was deleted.");
    assert_eq!(found.message, DELETED_MESSAGE);
    assert!(found.deleted_at.is_some());
    assert_eq!(found.id, reply.id);
    assert_eq!(found.parent_id, reply.parent_id);
    assert_eq!(found.root_id, reply.root_id);
    assert_eq!(found.author, "bob");
    assert_eq!(found.created_at, reply.created_at);
    let untouched = ForumPost::get(&conn, root.id).unwrap();
    assert_eq!(untouched.message, "root");
    assert_eq!(untouched.deleted_at, None);
}

#[test]
fn redaction_replaces_only_the_message_of_a_deleted_post() {
    let live = plain_post(1, None, "hello").redacted();
    assert_eq!(live.message, "hello");
    let gone = plain_post(2, Some(instant(1_700_000_100)), "hello").redacted();
    assert_eq!(gone.message, "This message was deleted.");
    assert_eq!(gone.id, 2);
    assert_eq!(gone.author, "ann");
    assert_eq!(gone.created_at, instant(1_700_000_000));
    assert_eq!(gone.deleted_at, Some(instant(1_700_000_100)));
    let again = gone.redacted();
    assert_eq!(again.message, "This message was deleted.");
}

#[test]
fn deletion_succeeds_once() {
    let conn = open_forum();
    let root = ForumPost::post_save(&conn, "ann".to_string(), "root".to_string()).unwrap();
    assert!(ForumPost::soft_delete_post(&conn, root.id).is_ok());
    let marked = ForumPost::get(&conn, root.id).unwrap().deleted_at;
    assert!(matches!(
        ForumPost::soft_delete_post(&conn, root.id),
        Err(ForumError::PostNotFound(1))
    ));
    assert_eq!(ForumPost::get(&conn, root.id).unwrap().deleted_at, marked);
    assert!(matches!(
        ForumPost::soft_delete_post(&conn, 42),
        Err(ForumError::PostNotFound(42))
    ));
    assert_eq!(count_posts(&conn), 1);
}

#[test]
fn deletion_outcomes() {
    assert!(ForumPost::deleted(5, Ok(1)).is_ok());
    assert!(ForumPost::deleted(5, Ok(2)).is_ok());
    assert!(matches!(ForumPost::deleted(5, Ok(0)), Err(ForumError::PostNotFound(5))));
    assert!(matches!(
        ForumPost::deleted(5, Err(rusqlite::Error::InvalidQuery)),
        Err(ForumError::DatabaseError(rusqlite::Error::InvalidQuery))
    ));
}

#[test]
fn blank_submissions_are_refused_and_nothing_is_stored() {
    let conn = open_forum();
    let root = ForumPost::post_save(&conn, "ann".to_string(), "root".to_string()).unwrap();
    assert_eq!(count_posts(&conn), 1);
    let blanks = ["", " ", "\t\n", " \u{3000}\u{a0} "];
    for blank in blanks {
        match ForumPost::post_save(&conn, blank.to_string(), "text".to_string()) {
            Err(ForumError::ValidationError(reason)) => assert_eq!(reason, "Author cannot be empty"),
            other => panic!("unexpected: {:?}", other),
        }
        match ForumPost::post_save(&conn, "bob".to_string(), blank.to_string()) {
            Err(ForumError::ValidationError(reason)) => {
                assert_eq!(reason, "Message cannot be empty")
            },
            other => panic!("unexpected: {:?}", other),
        }
        match root.reply_save(&conn, blank.to_string(), blank.to_string()) {
            Err(ForumError::ValidationError(reason)) => assert_eq!(reason, "Author cannot be empty"),
            other => panic!("unexpected: {:?}", other),
        }
        match root.reply_save(&conn, "bob".to_string(), blank.to_string()) {
            Err(ForumError::ValidationError(reason)) => {
                assert_eq!(reason, "Message cannot be empty")
            },
            other => panic!("unexpected: {:?}", other),
        }
    }
    assert_eq!(count_posts(&conn), 1);
}

#[test]
fn validation_checks_the_author_first() {
    assert!(validate("ann", "hello").is_ok());
    assert!(validate(" ann ", " hello ").is_ok());
    assert!(matches!(validate("", ""), Err(ForumError::ValidationError(AUTHOR_EMPTY))));
    assert!(matches!(validate("ann", "  "), Err(ForumError::ValidationError(MESSAGE_EMPTY))));
    assert_eq!(AUTHOR_EMPTY, "Author cannot be empty");
    assert_eq!(MESSAGE_EMPTY, "Message cannot be empty");
}

#[test]
fn roots_are_listed_newest_first() {
    let conn = open_forum();
    assert!(ForumPost::get_ops(&conn).unwrap().is_empty());
    let first = ForumPost::post_save(&conn, "ann".to_string(), "one".to_string()).unwrap();
    let second = ForumPost::post_save(&conn, "bob".to_string(), "two".to_string()).unwrap();
    first.reply_save(&conn, "cy".to_string(), "reply".to_string()).unwrap();
    let third = ForumPost::post_save(&conn, "dee".to_string(), "three".to_string()).unwrap();
    ForumPost::soft_delete_post(&conn, second.id).unwrap();
    let listed = ForumPost::get_ops(&conn).unwrap();
    let ids: Vec<usize> = listed.iter().map(|post| post.id).collect();
    assert_eq!(ids, vec![third.id, second.id, first.id]);
    assert!(listed.iter().all(|post| post.root_id.is_none() && post.parent_id.is_none()));
    assert_eq!(listed[0].message, "three");
    assert_eq!(listed[1].message, "This message was deleted.");
    assert_eq!(listed[1].author, "bob");
    assert_eq!(listed[2].message, "one");
}

#[test]
fn the_table_is_made_once() {
    let conn = Connection::open_in_memory().unwrap();
    assert!(ForumPost::create_table(&conn).is_ok());
    ForumPost::post_save(&conn, "ann".to_string(), "hello".to_string()).unwrap();
    assert!(ForumPost::create_table(&conn).is_ok());
    assert_eq!(count_posts(&conn), 1);
}

#[test]
fn storage_failures_are_reported() {
    let conn = Connection::open_in_memory().unwrap();
    assert!(matches!(ForumPost::get(&conn, 1), Err(ForumError::DatabaseError(_))));
    assert!(matches!(ForumPost::get_ops(&conn), Err(ForumError::DatabaseError(_))));
    assert!(matches!(
        ForumPost::post_save(&conn, "ann".to_string(), "hello".to_string()),
        Err(ForumError::DatabaseError(_))
    ));
    assert!(matches!(ForumPost::soft_delete_post(&conn, 1), Err(ForumError::DatabaseError(_))));
}

#[test]
fn stored_post_takes_the_row_identifier() {
    let post = ForumPost::stored(
        17,
        Some(3),
        Some(9),
        "ann".to_string(),
        instant(1_700_000_000),
        "hello".to_string(),
    );
    assert_eq!(post.id, 17);
    assert_eq!(post.root_id, Some(3));
    assert_eq!(post.parent_id, Some(9));
    assert_eq!(post.author, "ann");
    assert_eq!(post.message, "hello");
    assert_eq!(post.created_at, instant(1_700_000_000));
    assert_eq!(post.deleted_at, None);
}

#[test]
fn a_copy_of_a_post_is_the_same_post() {
    let post = plain_post(4, Some(instant(1_700_000_500)), "hello");
    let copy = post.clone();
    assert_eq!(copy.id, post.id);
    assert_eq!(copy.created_at, instant(1_700_000_000));
    assert_eq!(copy.deleted_at, Some(instant(1_700_000_500)));
    assert_eq!(copy.author, post.author);
    assert_eq!(copy.message, post.message);
}

#[test]
fn an_identifier_that_the_table_cannot_hold_is_not_found() {
    if usize::BITS < 64 {
        return;
    }
    let beyond = i64::MAX as usize + 1;
    let conn = open_forum();
    ForumPost::post_save(&conn, "ann".to_string(), "hello".to_string()).unwrap();
    for id in [beyond, beyond + 1, usize::MAX] {
        match ForumPost::soft_delete_post(&conn, id) {
            Err(ForumError::PostNotFound(missing)) => assert_eq!(missing, id),
            other => panic!("unexpected: {:?}", other),
        }
    }
    assert!(matches!(
        ForumPost::soft_delete_post(&conn, i64::MAX as usize),
        Err(ForumError::PostNotFound(_))
    ));
    assert_eq!(ForumPost::get(&conn, 1).unwrap().deleted_at, None);
    let without_table = Connection::open_in_memory().unwrap();
    assert!(matches!(
        ForumPost::soft_delete_post(&without_table, usize::MAX),
        Err(ForumError::PostNotFound(usize::MAX))
    ));
    assert!(matches!(
        ForumPost::soft_delete_post(&without_table, i64::MAX as usize),
        Err(ForumError::DatabaseError(_))
    ));
}
