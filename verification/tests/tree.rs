use chrono::NaiveDateTime;
use forum::forum::forum_post::ForumPost;
use forum::forum::thread::PostTreeNode;
use forum::ForumError;
use rusqlite::Connection;

fn open_forum() -> Connection {
    let conn = Connection::open_in_memory().unwrap();
    ForumPost::create_table(&conn).unwrap();
    conn
}

fn instant(seconds: i64) -> NaiveDateTime {
    chrono::DateTime::from_timestamp(seconds, 0).unwrap().naive_utc()
}

fn row(id: usize, root_id: Option<usize>, parent_id: Option<usize>) -> ForumPost {
    ForumPost {
        id,
        root_id,
        parent_id,
        author: format!("author {}", id),
        created_at: instant(1_700_000_000 + id as i64),
        deleted_at: None,
        message: format!("message {}", id),
    }
}

/// A tree written as text: each node is its identifier followed by its
/// replies in brackets.
fn shape(tree: &[PostTreeNode]) -> String {
    let nodes: Vec<String> =
        tree.iter().map(|node| format!("{}[{}]", node.post.id, shape(&node.replies))).collect();
    nodes.join(" ")
}

#[test]
fn tree_of_a_small_thread() {
    let conn = open_forum();
    let a = ForumPost::post_save(&conn, "ann".to_string(), "A".to_string()).unwrap();
    let b = a.reply_save(&conn, "bob".to_string(), "B".to_string()).unwrap();
    let c = b.reply_save(&conn, "cy".to_string(), "C".to_string()).unwrap();
    let d = a.reply_save(&conn, "dee".to_string(), "D".to_string()).unwrap();
    let tree = PostTreeNode::build_tree(&conn, a.id).unwrap();
    assert_eq!(tree.len(), 2);
    assert_eq!(tree[0].post.id, b.id);
    assert_eq!(tree[0].post.message, "B");
    assert_eq!(tree[0].replies.len(), 1);
    assert_eq!(tree[0].replies[0].post.id, c.id);
    assert_eq!(tree[0].replies[0].post.message, "C");
    assert!(tree[0].replies[0].replies.is_empty());
    assert_eq!(tree[1].post.id, d.id);
    assert_eq!(tree[1].post.message, "D");
    assert!(tree[1].replies.is_empty());
    assert_eq!(shape(&tree), "2[3[]] 4[]");
}

#[test]
fn tree_below_a_reply() {
    let conn = open_forum();
    let a = ForumPost::post_save(&conn, "ann".to_string(), "A".to_string()).unwrap();
    let b = a.reply_save(&conn, "bob".to_string(), "B".to_string()).unwrap();
    let c = b.reply_save(&conn, "cy".to_string(), "C".to_string()).unwrap();
    a.reply_save(&conn, "dee".to_string(), "D".to_string()).unwrap();
    let e = c.reply_save(&conn, "eve".to_string(), "E".to_string()).unwrap();
    let f = b.reply_save(&conn, "fay".to_string(), "F".to_string()).unwrap();
    assert_eq!(shape(&PostTreeNode::build_tree(&conn, a.id).unwrap()), "2[3[5[]] 6[]] 4[]");
    assert_eq!(shape(&PostTreeNode::build_tree(&conn, b.id).unwrap()), "3[5[]] 6[]");
    assert_eq!(shape(&PostTreeNode::build_tree(&conn, c.id).unwrap()), "5[]");
    assert_eq!(shape(&PostTreeNode::build_tree(&conn, e.id).unwrap()), "");
    assert_eq!(shape(&PostTreeNode::build_tree(&conn, f.id).unwrap()), "");
}

#[test]
fn threads_are_kept_apart() {
    let conn = open_forum();
    let a = ForumPost::post_save(&conn, "ann".to_string(), "A".to_string()).unwrap();
    let z = ForumPost::post_save(&conn, "zed".to_string(), "Z".to_string()).unwrap();
    a.reply_save(&conn, "bob".to_string(), "B".to_string()).unwrap();
    z.reply_save(&conn, "cy".to_string(), "Y".to_string()).unwrap();
    a.reply_save(&conn, "dee".to_string(), "D".to_string()).unwrap();
    assert_eq!(shape(&PostTreeNode::build_tree(&conn, a.id).unwrap()), "3[] 5[]");
    assert_eq!(shape(&PostTreeNode::build_tree(&conn, z.id).unwrap()), "4[]");
}

#[test]
fn leaf_has_an_empty_tree() {
    let conn = open_forum();
    let a = ForumPost::post_save(&conn, "ann".to_string(), "A".to_string()).unwrap();
    assert!(PostTreeNode::build_tree(&conn, a.id).unwrap().is_empty());
    let b = a.reply_save(&conn, "bob".to_string(), "B".to_string()).unwrap();
    assert!(PostTreeNode::build_tree(&conn, b.id).unwrap().is_empty());
}

#[test]
fn tree_of_an_unknown_post_is_not_found() {
    let conn = open_forum();
    ForumPost::post_save(&conn, "ann".to_string(), "A".to_string()).unwrap();
    assert!(matches!(PostTreeNode::build_tree(&conn, 5), Err(ForumError::PostNotFound(5))));
}

#[test]
fn tree_without_a_table_is_a_storage_failure() {
    let conn = Connection::open_in_memory().unwrap();
    assert!(matches!(PostTreeNode::build_tree(&conn, 1), Err(ForumError::DatabaseError(_))));
}

#[test]
fn deleted_posts_keep_their_place_in_the_tree() {
    let conn = open_forum();
    let a = ForumPost::post_save(&conn, "ann".to_string(), "A".to_string()).unwrap();
    let b = a.reply_save(&conn, "bob".to_string(), "B".to_string()).unwrap();
    let c = b.reply_save(&conn, "cy".to_string(), "C".to_string()).unwrap();
    a.reply_save(&conn, "dee".to_string(), "D".to_string()).unwrap();
    let before = PostTreeNode::build_tree(&conn, a.id).unwrap();
    ForumPost::soft_delete_post(&conn, b.id).unwrap();
    let after = PostTreeNode::build_tree(&conn, a.id).unwrap();
    assert_eq!(shape(&before), shape(&after));
    assert_eq!(before[0].post.message, "B");
    assert_eq!(after[0].post.message, "This message was deleted.");
    assert!(after[0].post.deleted_at.is_some());
    assert_eq!(after[0].post.id, b.id);
    assert_eq!(after[0].post.parent_id, Some(a.id));
    assert_eq!(after[0].post.root_id, Some(a.id));
    assert_eq!(after[0].post.author, "bob");
    assert_eq!(after[0].replies[0].post.id, c.id);
    assert_eq!(after[0].replies[0].post.message, "C");
    assert_eq!(after[1].post.message, "D");
    ForumPost::soft_delete_post(&conn, a.id).unwrap();
    assert_eq!(shape(&PostTreeNode::build_tree(&conn, a.id).unwrap()), shape(&before));
}

#[test]
fn assembling_rows_by_hand() {
    let rows = vec![
        row(2, Some(1), Some(1)),
        row(3, Some(1), Some(2)),
        row(4, Some(1), Some(1)),
        row(5, Some(1), Some(3)),
        row(6, Some(1), Some(2)),
        row(7, Some(1), Some(4)),
    ];
    assert_eq!(shape(&PostTreeNode::assemble(1, rows.clone())), "2[3[5[]] 6[]] 4[7[]]");
    assert_eq!(shape(&PostTreeNode::assemble(2, rows.clone())), "3[5[]] 6[]");
    assert_eq!(shape(&PostTreeNode::assemble(4, rows.clone())), "7[]");
    assert_eq!(shape(&PostTreeNode::assemble(7, rows.clone())), "");
    assert_eq!(shape(&PostTreeNode::assemble(99, rows)), "");
    assert_eq!(shape(&PostTreeNode::assemble(1, Vec::new())), "");
}

#[test]
fn assembling_keeps_the_posts_as_they_are() {
    let rows = vec![row(2, Some(1), Some(1)), row(3, Some(1), Some(2))];
    let tree = PostTreeNode::assemble(1, rows);
    assert_eq!(tree[0].post.author, "author 2");
    assert_eq!(tree[0].post.message, "message 2");
    assert_eq!(tree[0].post.created_at, instant(1_700_000_002));
    assert_eq!(tree[0].post.root_id, Some(1));
    assert_eq!(tree[0].replies[0].post.message, "message 3");
    assert_eq!(tree[0].replies[0].post.parent_id, Some(2));
}

#[test]
fn assembling_follows_the_order_of_the_rows() {
    let rows = vec![
        row(9, Some(1), Some(1)),
        row(4, Some(1), Some(9)),
        row(2, Some(1), Some(1)),
        row(3, Some(1), Some(9)),
    ];
    assert_eq!(shape(&PostTreeNode::assemble(1, rows)), "9[4[] 3[]] 2[]");
}

#[test]
fn rows_without_a_parent_are_left_out() {
    let rows = vec![row(2, Some(1), None), row(3, Some(1), Some(1)), row(4, None, None)];
    assert_eq!(shape(&PostTreeNode::assemble(1, rows)), "3[]");
}

#[test]
fn a_cycle_among_the_rows_gives_a_partial_tree() {
    let rows = vec![row(2, Some(1), Some(3)), row(3, Some(1), Some(2))];
    assert_eq!(shape(&PostTreeNode::assemble(2, rows.clone())), "3[2[]]");
    assert_eq!(shape(&PostTreeNode::assemble(3, rows.clone())), "2[3[]]");
    assert_eq!(shape(&PostTreeNode::assemble(1, rows)), "");
    let own_parent = vec![row(5, Some(1), Some(5)), row(6, Some(1), Some(5))];
    assert_eq!(shape(&PostTreeNode::assemble(5, own_parent)), "5[] 6[]");
}

#[test]
fn a_group_is_unfolded_once_where_an_identifier_comes_twice() {
    let rows = vec![
        row(2, Some(1), Some(1)),
        row(2, Some(1), Some(1)),
        row(3, Some(1), Some(2)),
    ];
    assert_eq!(shape(&PostTreeNode::assemble(1, rows)), "2[3[]] 2[]");
}

#[test]
fn a_deep_thread_is_assembled() {
    let depth = 300;
    let mut rows = Vec::new();
    let mut id = 2;
    while id <= depth {
        rows.push(row(id, Some(1), Some(id - 1)));
        id += 1;
    }
    let tree = PostTreeNode::assemble(1, rows);
    let mut level = &tree;
    let mut expected = 2;
    while !level.is_empty() {
        assert_eq!(level.len(), 1);
        assert_eq!(level[0].post.id, expected);
        expected += 1;
        level = &level[0].replies;
    }
    assert_eq!(expected, depth + 1);
}
