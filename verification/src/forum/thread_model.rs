//! The reply tree of a thread whose rows are as the store writes them.

use crate::forum::forum_post::PostView;
use crate::forum::thread::{
    children_of, group_by_parent, posts_in, thread_under, unfold, unfold_each, Groups, ThreadNode,
};
use crate::forum::thread_laws::{
    changed_rows, distinct_ids, is_row, lemma_children_answer_parent, lemma_children_are_rows,
    lemma_groups_finite, lemma_no_post_twice, lemma_tree_is_made_of_rows,
    lemma_unfold_leaves_less, lemma_unfold_shows_taken, within,
};
use vstd::prelude::*;

verus! {

/// Rows as the store writes them: no identifier is given twice, and a reply
/// is younger than the post it answers, since that post was there when the
/// reply was written.
pub open spec fn well_formed(rows: Seq<PostView>) -> bool {
    &&& distinct_ids(rows)
    &&& forall|i: int|
        0 <= i < rows.len() ==> match (#[trigger] rows[i]).parent_id {
            Some(parent) => parent < rows[i].id,
            None => true,
        }
}

/// The replies of the thread below the root post `root`, as the store keeps
/// them: each names `root` as the top of its thread and answers `root` or
/// another reply of the thread, and each is younger than `root` and than
/// the post it answers.
pub open spec fn is_thread(rows: Seq<PostView>, root: usize) -> bool {
    &&& distinct_ids(rows)
    &&& forall|i: int|
        0 <= i < rows.len() ==> {
            let row = #[trigger] rows[i];
            &&& row.root_id == Some(root)
            &&& root < row.id
            &&& row.parent_id matches Some(parent) && parent < row.id && (parent == root
                || exists|j: int| 0 <= j < rows.len() && (#[trigger] rows[j]).id == parent)
        }
}

/// The rows of a thread are well formed.
pub proof fn lemma_thread_is_well_formed(rows: Seq<PostView>, root: usize)
    requires
        is_thread(rows, root),
    ensures
        well_formed(rows),
{
}

/// A thread stays a thread when a reply is stored: where `parent` is the
/// root post or a reply of the thread, a reply to it as `reply_save` makes
/// it, under an identifier greater than all before, can join the rows.
pub proof fn lemma_reply_keeps_thread(
    rows: Seq<PostView>,
    root: usize,
    parent: PostView,
    reply: PostView,
)
    requires
        is_thread(rows, root),
        (parent.id == root && parent.is_root()) || is_row(rows, parent),
        reply.root_id == Some(parent.thread_id()),
        reply.parent_id == Some(parent.id),
        root < reply.id,
        forall|i: int| 0 <= i < rows.len() ==> (#[trigger] rows[i]).id < reply.id,
    ensures
        is_thread(rows.push(reply), root),
{
    let grown = rows.push(reply);
    let last = rows.len() as int;
    if is_row(rows, parent) {
        let r = choose|r: int| 0 <= r < rows.len() && #[trigger] rows[r] == parent;
        assert(grown[r].id == parent.id);
    }
    assert forall|i: int| 0 <= i < grown.len() implies {
        let row = #[trigger] grown[i];
        &&& row.root_id == Some(root)
        &&& root < row.id
        &&& row.parent_id matches Some(parent) && parent < row.id && (parent == root
            || exists|j: int| 0 <= j < grown.len() && (#[trigger] grown[j]).id == parent)
    } by {
        if i < last {
            assert(grown[i] == rows[i]);
            let above = rows[i].parent_id->0;
            if above != root {
                let j = choose|j: int| 0 <= j < rows.len() && (#[trigger] rows[j]).id == above;
                assert(grown[j].id == above);
            }
        }
    }
    assert forall|i: int, j: int| 0 <= i < j < grown.len() implies (#[trigger] grown[i]).id != (
    #[trigger] grown[j]).id by {
        assert(grown[i] == rows[i]);
        if j < last {
            assert(grown[j] == rows[j]);
        }
    }
}

/// A thread stays a thread when one of its posts is deleted.
pub proof fn lemma_deletion_keeps_thread(
    rows: Seq<PostView>,
    root: usize,
    deleted: usize,
    at: chrono::NaiveDateTime,
)
    requires
        is_thread(rows, root),
    ensures
        is_thread(changed_rows(rows, |post: PostView| post.deleted_if(deleted, at)), root),
{
    let after = changed_rows(rows, |post: PostView| post.deleted_if(deleted, at));
    assert forall|i: int| 0 <= i < after.len() implies {
        let row = #[trigger] after[i];
        &&& row.root_id == Some(root)
        &&& root < row.id
        &&& row.parent_id matches Some(parent) && parent < row.id && (parent == root
            || exists|j: int| 0 <= j < after.len() && (#[trigger] after[j]).id == parent)
    } by {
        let before = rows[i];
        assert(after[i] == before.deleted_if(deleted, at));
        let above = before.parent_id->0;
        if above != root {
            let j = choose|j: int| 0 <= j < rows.len() && (#[trigger] rows[j]).id == above;
            assert(after[j].id == above);
        }
    }
    assert forall|i: int, j: int| 0 <= i < j < after.len() implies (#[trigger] after[i]).id != (
    #[trigger] after[j]).id by {
        assert(rows[i].id != rows[j].id);
    }
}

/// The replies below `parent`, read off the rows: one node for each direct
/// reply, in the order of the rows, with the replies to that reply below it.
pub open spec fn replies_under(rows: Seq<PostView>, parent: usize) -> Seq<ThreadNode>
    decreases usize::MAX - parent,
{
    let direct = children_of(rows, parent);
    Seq::new(
        direct.len(),
        |i: int|
            ThreadNode {
                post: direct[i],
                replies: if parent < direct[i].id {
                    replies_under(rows, direct[i].id)
                } else {
                    Seq::empty()
                },
            },
    )
}

/// Whether `post` is `ancestor` or stands below it in the thread.
spec fn descends(rows: Seq<PostView>, post: usize, ancestor: usize) -> bool
    decreases post,
{
    post == ancestor || exists|i: int|
        0 <= i < rows.len() && (#[trigger] rows[i]).id == post && match rows[i].parent_id {
            Some(parent) => parent < post && descends(rows, parent, ancestor),
            None => false,
        }
}

/// Whether `post` is one of `posts` or stands below one of them.
spec fn below_any(rows: Seq<PostView>, post: usize, posts: Seq<PostView>) -> bool {
    exists|i: int| 0 <= i < posts.len() && descends(rows, post, (#[trigger] posts[i]).id)
}

proof fn lemma_descendant_is_younger(rows: Seq<PostView>, post: usize, ancestor: usize)
    requires
        descends(rows, post, ancestor),
    ensures
        ancestor <= post,
    decreases post,
{
    if post != ancestor {
        let i = choose|i: int|
            0 <= i < rows.len() && (#[trigger] rows[i]).id == post && match rows[i].parent_id {
                Some(parent) => parent < post && descends(rows, parent, ancestor),
                None => false,
            };
        lemma_descendant_is_younger(rows, rows[i].parent_id->0, ancestor);
    }
}

/// What descends from a reply descends from the post it answers.
proof fn lemma_descends_through_parent(rows: Seq<PostView>, post: usize, child: int)
    requires
        0 <= child < rows.len(),
        rows[child].parent_id is Some,
        rows[child].parent_id->0 < rows[child].id,
        descends(rows, post, rows[child].id),
    ensures
        descends(rows, post, rows[child].parent_id->0),
    decreases post,
{
    let ancestor = rows[child].parent_id->0;
    if post == rows[child].id {
        assert(descends(rows, ancestor, ancestor));
    } else {
        let i = choose|i: int|
            0 <= i < rows.len() && (#[trigger] rows[i]).id == post && match rows[i].parent_id {
                Some(parent) => parent < post && descends(rows, parent, rows[child].id),
                None => false,
            };
        lemma_descends_through_parent(rows, rows[i].parent_id->0, child);
    }
}

/// What stands strictly below a post descends from one of its direct
/// replies.
proof fn lemma_descends_through_child(rows: Seq<PostView>, post: usize, ancestor: usize) -> (child:
    int)
    requires
        descends(rows, post, ancestor),
        post != ancestor,
    ensures
        0 <= child < rows.len(),
        rows[child].parent_id == Some(ancestor),
        ancestor < rows[child].id,
        descends(rows, post, rows[child].id),
    decreases post,
{
    let i = choose|i: int|
        0 <= i < rows.len() && (#[trigger] rows[i]).id == post && match rows[i].parent_id {
            Some(parent) => parent < post && descends(rows, parent, ancestor),
            None => false,
        };
    let parent = rows[i].parent_id->0;
    if parent == ancestor {
        assert(descends(rows, post, rows[i].id));
        i
    } else {
        let child = lemma_descends_through_child(rows, parent, ancestor);
        assert(descends(rows, parent, rows[child].id));
        assert(descends(rows, post, rows[child].id));
        child
    }
}

/// The posts above a post form one line: of two of them, one stands below
/// the other.
proof fn lemma_one_line_of_ancestors(rows: Seq<PostView>, post: usize, one: usize, other: usize)
    requires
        well_formed(rows),
        descends(rows, post, one),
        descends(rows, post, other),
    ensures
        descends(rows, one, other) || descends(rows, other, one),
    decreases post,
{
    if post != one && post != other {
        let i = choose|i: int|
            0 <= i < rows.len() && (#[trigger] rows[i]).id == post && match rows[i].parent_id {
                Some(parent) => parent < post && descends(rows, parent, one),
                None => false,
            };
        let j = choose|j: int|
            0 <= j < rows.len() && (#[trigger] rows[j]).id == post && match rows[j].parent_id {
                Some(parent) => parent < post && descends(rows, parent, other),
                None => false,
            };
        assert(i == j) by {
            if i < j {
                assert(rows[i].id != rows[j].id);
            }
            if j < i {
                assert(rows[j].id != rows[i].id);
            }
        }
        lemma_one_line_of_ancestors(rows, rows[i].parent_id->0, one, other);
    }
}

/// A row that answers a post is among the direct replies to it.
proof fn lemma_row_is_child(rows: Seq<PostView>, i: int) -> (a: int)
    requires
        0 <= i < rows.len(),
        rows[i].parent_id is Some,
    ensures
        0 <= a < children_of(rows, rows[i].parent_id->0).len(),
        children_of(rows, rows[i].parent_id->0)[a] == rows[i],
    decreases rows.len(),
{
    let parent = rows[i].parent_id->0;
    let earlier = rows.drop_last();
    let before = children_of(earlier, parent);
    if i == rows.len() - 1 {
        before.len() as int
    } else {
        assert(earlier[i] == rows[i]);
        lemma_row_is_child(earlier, i)
    }
}

/// The nodes of `posts`, each with its replies as the rows give them.
spec fn nodes_of(rows: Seq<PostView>, posts: Seq<PostView>) -> Seq<ThreadNode> {
    Seq::new(
        posts.len(),
        |i: int| ThreadNode { post: posts[i], replies: replies_under(rows, posts[i].id) },
    )
}

/// Groups that still hold every group of the rows at and below `post`.
spec fn whole_below(rows: Seq<PostView>, groups: Groups, post: usize) -> bool {
    forall|k: usize|
        descends(rows, k, post) && #[trigger] group_by_parent(rows).contains_key(k)
            ==> groups.contains_key(k)
}

proof fn lemma_unfold_is_model(rows: Seq<PostView>, groups: Groups, parent: usize)
    requires
        well_formed(rows),
        groups.dom().finite(),
        within(groups, group_by_parent(rows)),
        whole_below(rows, groups, parent),
    ensures
        unfold(groups, parent).0 == replies_under(rows, parent),
        forall|k: usize| #[trigger]
            unfold(groups, parent).1.contains_key(k) <==> groups.contains_key(k) && !descends(
                rows,
                k,
                parent,
            ),
    decreases groups.dom().len(), 0nat, 0nat,
{
    let all = group_by_parent(rows);
    let kids = children_of(rows, parent);
    lemma_children_are_rows(rows, parent);
    lemma_children_answer_parent(rows, parent);
    if groups.contains_key(parent) {
        let fewer = groups.remove(parent);
        assert(groups[parent] == kids);
        assert forall|i: int| 0 <= i < kids.len() implies whole_below(
            rows,
            fewer,
            (#[trigger] kids[i]).id,
        ) by {
            assert(is_row(rows, kids[i]));
            let r = choose|r: int| 0 <= r < rows.len() && #[trigger] rows[r] == kids[i];
            assert forall|k: usize|
                descends(rows, k, kids[i].id) && #[trigger] all.contains_key(
                    k,
                ) implies fewer.contains_key(k) by {
                lemma_descends_through_parent(rows, k, r);
                lemma_descendant_is_younger(rows, k, kids[i].id);
            }
        }
        lemma_unfold_each_is_model(rows, fewer, kids, parent);
        assert(nodes_of(rows, kids) =~= replies_under(rows, parent)) by {
            assert forall|i: int| 0 <= i < kids.len() implies parent < (#[trigger] kids[i]).id by {
                assert(is_row(rows, kids[i]));
                let r = choose|r: int| 0 <= r < rows.len() && #[trigger] rows[r] == kids[i];
            }
        }
        let left = unfold(groups, parent).1;
        assert forall|k: usize| #[trigger]
            left.contains_key(k) <==> groups.contains_key(k) && !descends(rows, k, parent) by {
            if below_any(rows, k, kids) {
                let i = choose|i: int|
                    0 <= i < kids.len() && descends(rows, k, (#[trigger] kids[i]).id);
                assert(is_row(rows, kids[i]));
                let r = choose|r: int| 0 <= r < rows.len() && #[trigger] rows[r] == kids[i];
                lemma_descends_through_parent(rows, k, r);
            }
            if descends(rows, k, parent) && k != parent {
                let child = lemma_descends_through_child(rows, k, parent);
                let a = lemma_row_is_child(rows, child);
                assert(descends(rows, k, kids[a].id));
            }
        }
    } else {
        assert(descends(rows, parent, parent));
        assert(!all.contains_key(parent));
        assert(replies_under(rows, parent) =~= Seq::<ThreadNode>::empty());
        assert forall|k: usize| groups.contains_key(k) implies !descends(rows, k, parent) by {
            if descends(rows, k, parent) && k != parent {
                let child = lemma_descends_through_child(rows, k, parent);
                let a = lemma_row_is_child(rows, child);
            }
        }
    }
}

proof fn lemma_unfold_each_is_model(
    rows: Seq<PostView>,
    groups: Groups,
    posts: Seq<PostView>,
    parent: usize,
)
    requires
        well_formed(rows),
        groups.dom().finite(),
        within(groups, group_by_parent(rows)),
        forall|i: int|
            0 <= i < posts.len() ==> (#[trigger] posts[i]).parent_id == Some(parent) && is_row(
                rows,
                posts[i],
            ),
        distinct_ids(posts),
        forall|i: int| 0 <= i < posts.len() ==> whole_below(rows, groups, (#[trigger] posts[i]).id),
    ensures
        unfold_each(groups, posts).0 == nodes_of(rows, posts),
        forall|k: usize| #[trigger]
            unfold_each(groups, posts).1.contains_key(k) <==> groups.contains_key(k) && !below_any(
                rows,
                k,
                posts,
            ),
    decreases groups.dom().len(), 1nat, posts.len(),
{
    let all = group_by_parent(rows);
    if posts.len() > 0 {
        let first = posts[0];
        let later = posts.drop_first();
        let (replies, rest) = unfold(groups, first.id);
        lemma_unfold_leaves_less(groups, first.id);
        lemma_unfold_is_model(rows, groups, first.id);
        assert(is_row(rows, first));
        let r0 = choose|r: int| 0 <= r < rows.len() && #[trigger] rows[r] == first;
        assert forall|i: int| 0 <= i < later.len() implies (#[trigger] later[i]).parent_id == Some(
            parent,
        ) && is_row(rows, later[i]) by {
            assert(later[i] == posts[i + 1]);
        }
        assert forall|a: int, b: int| 0 <= a < b < later.len() implies (#[trigger] later[a]).id != (
        #[trigger] later[b]).id by {
            assert(later[a] == posts[a + 1] && later[b] == posts[b + 1]);
        }
        assert forall|i: int| 0 <= i < later.len() implies whole_below(
            rows,
            rest,
            (#[trigger] later[i]).id,
        ) by {
            let other = later[i];
            assert(other == posts[i + 1]);
            assert(whole_below(rows, groups, other.id));
            assert(is_row(rows, other));
            let r = choose|r: int| 0 <= r < rows.len() && #[trigger] rows[r] == other;
            assert forall|k: usize|
                descends(rows, k, other.id) && #[trigger] all.contains_key(
                    k,
                ) implies rest.contains_key(k) by {
                if descends(rows, k, first.id) {
                    lemma_one_line_of_ancestors(rows, k, first.id, other.id);
                    assert(first.id != other.id);
                    if descends(rows, first.id, other.id) {
                        lemma_sibling_not_below(rows, r0, r);
                    } else {
                        lemma_sibling_not_below(rows, r, r0);
                    }
                }
            }
        }
        lemma_unfold_each_is_model(rows, rest, later, parent);
        let (siblings, left) = unfold_each(rest, later);
        assert(unfold_each(groups, posts).0 == seq![ThreadNode { post: first, replies }]
            + siblings);
        assert(seq![ThreadNode { post: first, replies }] + siblings =~= nodes_of(rows, posts)) by {
            assert forall|i: int| 0 < i < posts.len() implies (#[trigger] nodes_of(rows, posts)[i])
                == siblings[i - 1] by {
                assert(later[i - 1] == posts[i]);
            }
        }
        assert forall|k: usize| #[trigger]
            left.contains_key(k) <==> groups.contains_key(k) && !below_any(rows, k, posts) by {
            if below_any(rows, k, posts) {
                let i = choose|i: int|
                    0 <= i < posts.len() && descends(rows, k, (#[trigger] posts[i]).id);
                if i > 0 {
                    assert(later[i - 1] == posts[i]);
                    assert(below_any(rows, k, later));
                }
            }
            if below_any(rows, k, later) {
                let i = choose|i: int|
                    0 <= i < later.len() && descends(rows, k, (#[trigger] later[i]).id);
                assert(later[i] == posts[i + 1]);
            }
            if descends(rows, k, first.id) {
                assert(descends(rows, k, posts[0].id));
            }
        }
    } else {
        assert(nodes_of(rows, posts) =~= Seq::<ThreadNode>::empty());
    }
}

/// Of two rows that answer the same post, neither stands below the other.
proof fn lemma_sibling_not_below(rows: Seq<PostView>, one: int, other: int)
    requires
        well_formed(rows),
        0 <= one < rows.len(),
        0 <= other < rows.len(),
        rows[one].id != rows[other].id,
        rows[one].parent_id is Some,
        rows[one].parent_id == rows[other].parent_id,
    ensures
        !descends(rows, rows[one].id, rows[other].id),
{
    if descends(rows, rows[one].id, rows[other].id) {
        let i = choose|i: int|
            0 <= i < rows.len() && (#[trigger] rows[i]).id == rows[one].id
                && match rows[i].parent_id {
                Some(parent) => parent < rows[one].id && descends(rows, parent, rows[other].id),
                None => false,
            };
        assert(i == one) by {
            if i < one {
                assert(rows[i].id != rows[one].id);
            }
            if one < i {
                assert(rows[one].id != rows[i].id);
            }
        }
        lemma_descendant_is_younger(rows, rows[one].parent_id->0, rows[other].id);
    }
}

/// Of rows as the store writes them, the reply tree is the whole thread
/// below the post: every post has the replies to it below it, each of them
/// once, in the order of the rows, however deep the thread goes.
pub proof fn lemma_tree_is_whole_thread(rows: Seq<PostView>, post_id: usize)
    requires
        well_formed(rows),
    ensures
        thread_under(rows, post_id) == replies_under(rows, post_id),
{
    lemma_groups_finite(rows);
    lemma_unfold_is_model(rows, group_by_parent(rows), post_id);
}

/// Every post of a thread stands below its root.
proof fn lemma_thread_descends_from_root(rows: Seq<PostView>, root: usize, post: usize)
    requires
        is_thread(rows, root),
        post == root || exists|j: int| 0 <= j < rows.len() && (#[trigger] rows[j]).id == post,
    ensures
        descends(rows, post, root),
    decreases post,
{
    if post != root {
        let j = choose|j: int| 0 <= j < rows.len() && (#[trigger] rows[j]).id == post;
        lemma_thread_descends_from_root(rows, root, rows[j].parent_id->0);
    }
}

/// The reply tree below the root of a thread holds the whole thread: every
/// reply stands in it, once, and nothing else does.
pub proof fn lemma_tree_holds_whole_thread(rows: Seq<PostView>, root: usize)
    requires
        is_thread(rows, root),
    ensures
        forall|i: int|
            0 <= i < rows.len() ==> is_row(posts_in(thread_under(rows, root)), #[trigger] rows[i]),
        forall|j: int|
            0 <= j < posts_in(thread_under(rows, root)).len() ==> is_row(
                rows,
                #[trigger] posts_in(thread_under(rows, root))[j],
            ),
        distinct_ids(posts_in(thread_under(rows, root))),
{
    let groups = group_by_parent(rows);
    lemma_groups_finite(rows);
    lemma_unfold_is_model(rows, groups, root);
    lemma_unfold_shows_taken(groups, root);
    let left = unfold(groups, root).1;
    assert forall|i: int| 0 <= i < rows.len() implies is_row(
        posts_in(thread_under(rows, root)),
        #[trigger] rows[i],
    ) by {
        let parent = rows[i].parent_id->0;
        let a = lemma_row_is_child(rows, i);
        assert(groups.contains_key(parent));
        assert(groups[parent][a] == rows[i]);
        lemma_thread_descends_from_root(rows, root, parent);
        assert(!left.contains_key(parent));
    }
    lemma_tree_is_made_of_rows(rows, root);
    lemma_no_post_twice(rows, root);
}

} // verus!
