//! What holds of every reply tree that is built from rows.

use crate::forum::forum_post::{all_redacted, PostView};
use crate::forum::thread::{
    children_of, group_by_parent, is_reply_tree, linked, posts_in, thread_under, unfold,
    unfold_each, Groups, ThreadNode,
};
use vstd::prelude::*;

verus! {

/// The posts that some row of `rows` answers.
pub open spec fn answered(rows: Seq<PostView>) -> Set<usize>
    decreases rows.len(),
{
    if rows.len() == 0 {
        Set::empty()
    } else {
        match rows.last().parent_id {
            Some(parent) => answered(rows.drop_last()).insert(parent),
            None => answered(rows.drop_last()),
        }
    }
}

/// The direct replies to a post are rows that answer it, and a post that has
/// one is among the answered.
pub proof fn lemma_children_answer_parent(rows: Seq<PostView>, parent: usize)
    ensures
        forall|j: int|
            0 <= j < children_of(rows, parent).len() ==> (#[trigger] children_of(
                rows,
                parent,
            )[j]).parent_id == Some(parent),
        children_of(rows, parent).len() > 0 ==> answered(rows).contains(parent),
        answered(rows).finite(),
    decreases rows.len(),
{
    if rows.len() > 0 {
        lemma_children_answer_parent(rows.drop_last(), parent);
    }
}

/// Only finitely many posts are answered.
pub proof fn lemma_groups_finite(rows: Seq<PostView>)
    ensures
        group_by_parent(rows).dom().finite(),
{
    assert forall|parent: usize| group_by_parent(rows).dom().contains(parent) implies answered(
        rows,
    ).contains(parent) by {
        lemma_children_answer_parent(rows, parent);
    }
    lemma_children_answer_parent(rows, 0);
    assert(group_by_parent(rows).dom().subset_of(answered(rows)));
    vstd::set_lib::lemma_set_subset_finite(answered(rows), group_by_parent(rows).dom());
}

/// Groups in which every post answers the post that its group is kept under.
pub open spec fn keyed_by_parent(groups: Groups) -> bool {
    forall|parent: usize, j: int|
        groups.contains_key(parent) && 0 <= j < groups[parent].len() ==> (
        #[trigger] groups[parent][j]).parent_id == Some(parent)
}

/// One mapping holds nothing that the other does not hold.
pub open spec fn within(left: Groups, groups: Groups) -> bool {
    forall|parent: usize| #[trigger]
        left.contains_key(parent) ==> groups.contains_key(parent) && left[parent]
            == groups[parent]
}

/// Unfolding takes groups out and changes none: what is left was there
/// before.
pub proof fn lemma_unfold_leaves_less(groups: Groups, parent: usize)
    requires
        groups.dom().finite(),
    ensures
        within(unfold(groups, parent).1, groups),
        unfold(groups, parent).1.dom().finite(),
        unfold(groups, parent).1.dom().len() <= groups.dom().len(),
    decreases groups.dom().len(), 0nat, 0nat,
{
    if groups.contains_key(parent) {
        lemma_unfold_each_leaves_less(groups.remove(parent), groups[parent]);
    }
}

/// The same of the unfolding of one post after the other.
pub proof fn lemma_unfold_each_leaves_less(groups: Groups, posts: Seq<PostView>)
    requires
        groups.dom().finite(),
    ensures
        within(unfold_each(groups, posts).1, groups),
        unfold_each(groups, posts).1.dom().finite(),
        unfold_each(groups, posts).1.dom().len() <= groups.dom().len(),
        unfold_each(groups, posts).0.len() == posts.len(),
        forall|i: int|
            0 <= i < posts.len() ==> (#[trigger] unfold_each(groups, posts).0[i]).post == posts[i],
    decreases groups.dom().len(), 1nat, posts.len(),
{
    if posts.len() > 0 {
        lemma_unfold_leaves_less(groups, posts[0].id);
        let rest = unfold(groups, posts[0].id).1;
        lemma_unfold_each_leaves_less(rest, posts.drop_first());
    }
}

proof fn lemma_unfold_linked(groups: Groups, parent: usize)
    requires
        groups.dom().finite(),
        keyed_by_parent(groups),
    ensures
        linked(unfold(groups, parent).0, parent),
    decreases groups.dom().len(), 0nat, 0nat,
{
    if groups.contains_key(parent) {
        lemma_unfold_each_linked(groups.remove(parent), groups[parent], parent);
    }
}

proof fn lemma_unfold_each_linked(groups: Groups, posts: Seq<PostView>, parent: usize)
    requires
        groups.dom().finite(),
        keyed_by_parent(groups),
        forall|i: int| 0 <= i < posts.len() ==> (#[trigger] posts[i]).parent_id == Some(parent),
    ensures
        linked(unfold_each(groups, posts).0, parent),
    decreases groups.dom().len(), 1nat, posts.len(),
{
    if posts.len() > 0 {
        let first = posts[0];
        let (replies, rest) = unfold(groups, first.id);
        lemma_unfold_leaves_less(groups, first.id);
        lemma_unfold_linked(groups, first.id);
        assert(keyed_by_parent(rest)) by {
            assert forall|k: usize, j: int|
                rest.contains_key(k) && 0 <= j < rest[k].len() implies (
            #[trigger] rest[k][j]).parent_id == Some(k) by {
                assert(groups.contains_key(k) && rest[k] == groups[k]);
            }
        }
        let later = posts.drop_first();
        assert forall|i: int| 0 <= i < later.len() implies (#[trigger] later[i]).parent_id == Some(
            parent,
        ) by {
            assert(later[i] == posts[i + 1]);
        }
        lemma_unfold_each_linked(rest, later, parent);
        let (siblings, left) = unfold_each(rest, later);
        let forest = unfold_each(groups, posts).0;
        assert(forest == seq![ThreadNode { post: first, replies }] + siblings);
        assert forall|i: int| 0 <= i < forest.len() implies {
            &&& (#[trigger] forest[i]).post.parent_id == Some(parent)
            &&& linked(forest[i].replies, forest[i].post.id)
        } by {
            if i > 0 {
                assert(forest[i] == siblings[i - 1]);
            }
        }
    }
}

/// Every reply tree hangs together: the nodes at its top answer the post
/// that the tree was built for, and every other node answers the node it
/// hangs from. This holds of any rows, well formed or not.
pub proof fn lemma_tree_is_linked(rows: Seq<PostView>, post_id: usize)
    ensures
        linked(thread_under(rows, post_id), post_id),
{
    let groups = group_by_parent(rows);
    lemma_groups_finite(rows);
    assert(keyed_by_parent(groups)) by {
        assert forall|parent: usize, j: int|
            groups.contains_key(parent) && 0 <= j < groups[parent].len() implies (
        #[trigger] groups[parent][j]).parent_id == Some(parent) by {
            lemma_children_answer_parent(rows, parent);
        }
    }
    lemma_unfold_linked(groups, post_id);
}

/// The top of a reply tree is made of the direct replies to its post, one
/// node for each, in the order of the rows. This holds of any rows.
pub proof fn lemma_top_is_direct_replies(rows: Seq<PostView>, post_id: usize)
    ensures
        thread_under(rows, post_id).len() == children_of(rows, post_id).len(),
        forall|i: int|
            0 <= i < children_of(rows, post_id).len() ==> (#[trigger] thread_under(
                rows,
                post_id,
            )[i]).post == children_of(rows, post_id)[i],
{
    let groups = group_by_parent(rows);
    lemma_groups_finite(rows);
    if groups.contains_key(post_id) {
        lemma_unfold_each_leaves_less(groups.remove(post_id), groups[post_id]);
    }
}

/// A post that no row answers has an empty reply tree.
pub proof fn lemma_leaf_has_no_replies(rows: Seq<PostView>, post_id: usize)
    requires
        forall|i: int| 0 <= i < rows.len() ==> (#[trigger] rows[i]).parent_id != Some(post_id),
    ensures
        thread_under(rows, post_id) == Seq::<ThreadNode>::empty(),
{
    lemma_no_answer_no_child(rows, post_id);
}

proof fn lemma_no_answer_no_child(rows: Seq<PostView>, post_id: usize)
    requires
        forall|i: int| 0 <= i < rows.len() ==> (#[trigger] rows[i]).parent_id != Some(post_id),
    ensures
        children_of(rows, post_id).len() == 0,
    decreases rows.len(),
{
    if rows.len() > 0 {
        let earlier = rows.drop_last();
        assert forall|i: int| 0 <= i < earlier.len() implies (#[trigger] earlier[i]).parent_id
            != Some(post_id) by {
            assert(earlier[i] == rows[i]);
        }
        lemma_no_answer_no_child(earlier, post_id);
    }
}

/// A change to posts that leaves each where it is: neither its identifier
/// nor the post that it answers changes.
pub open spec fn keeps_place(change: spec_fn(PostView) -> PostView) -> bool {
    forall|post: PostView|
        (#[trigger] change(post)).id == post.id && change(post).parent_id == post.parent_id
}

/// The rows with `change` made to each.
pub open spec fn changed_rows(rows: Seq<PostView>, change: spec_fn(PostView) -> PostView) -> Seq<
    PostView,
> {
    Seq::new(rows.len(), |i: int| change(rows[i]))
}

/// The forest with `change` made to the post of each node.
pub open spec fn changed_forest(
    forest: Seq<ThreadNode>,
    change: spec_fn(PostView) -> PostView,
) -> Seq<ThreadNode>
    decreases forest,
{
    Seq::new(
        forest.len(),
        |i: int|
            if 0 <= i < forest.len() {
                ThreadNode {
                    post: change(forest[i].post),
                    replies: changed_forest(forest[i].replies, change),
                }
            } else {
                arbitrary()
            },
    )
}

/// The groups with `change` made to each post.
pub open spec fn changed_groups(groups: Groups, change: spec_fn(PostView) -> PostView) -> Groups {
    Map::new(
        |parent: usize| groups.contains_key(parent),
        |parent: usize| changed_rows(groups[parent], change),
    )
}

proof fn lemma_children_of_changed(
    rows: Seq<PostView>,
    change: spec_fn(PostView) -> PostView,
    parent: usize,
)
    requires
        keeps_place(change),
    ensures
        children_of(changed_rows(rows, change), parent) == changed_rows(
            children_of(rows, parent),
            change,
        ),
    decreases rows.len(),
{
    let after = changed_rows(rows, change);
    if rows.len() > 0 {
        lemma_children_of_changed(rows.drop_last(), change, parent);
        assert(after.drop_last() =~= changed_rows(rows.drop_last(), change));
        assert(after.last() == change(rows.last()));
        let earlier = children_of(rows.drop_last(), parent);
        if rows.last().parent_id == Some(parent) {
            assert(changed_rows(earlier, change).push(change(rows.last())) =~= changed_rows(
                earlier.push(rows.last()),
                change,
            ));
        }
    } else {
        assert(children_of(after, parent) =~= changed_rows(children_of(rows, parent), change));
    }
}

proof fn lemma_unfold_changed(
    groups: Groups,
    change: spec_fn(PostView) -> PostView,
    parent: usize,
)
    requires
        groups.dom().finite(),
        keeps_place(change),
    ensures
        unfold(changed_groups(groups, change), parent) == (
            changed_forest(unfold(groups, parent).0, change),
            changed_groups(unfold(groups, parent).1, change),
        ),
    decreases groups.dom().len(), 0nat, 0nat,
{
    let after = changed_groups(groups, change);
    assert(after.dom() =~= groups.dom());
    if groups.contains_key(parent) {
        assert(after.remove(parent) =~= changed_groups(groups.remove(parent), change));
        lemma_unfold_each_changed(groups.remove(parent), change, groups[parent]);
    } else {
        assert(changed_forest(Seq::<ThreadNode>::empty(), change) =~= Seq::<ThreadNode>::empty());
    }
}

proof fn lemma_unfold_each_changed(
    groups: Groups,
    change: spec_fn(PostView) -> PostView,
    posts: Seq<PostView>,
)
    requires
        groups.dom().finite(),
        keeps_place(change),
    ensures
        unfold_each(changed_groups(groups, change), changed_rows(posts, change)) == (
            changed_forest(unfold_each(groups, posts).0, change),
            changed_groups(unfold_each(groups, posts).1, change),
        ),
    decreases groups.dom().len(), 1nat, posts.len(),
{
    let after = changed_groups(groups, change);
    let posts_after = changed_rows(posts, change);
    assert(after.dom() =~= groups.dom());
    if posts.len() > 0 {
        let first = posts[0];
        assert(posts_after[0] == change(first));
        let (replies, rest) = unfold(groups, first.id);
        lemma_unfold_leaves_less(groups, first.id);
        lemma_unfold_changed(groups, change, first.id);
        assert(changed_groups(rest, change).dom() =~= rest.dom());
        assert(posts_after.drop_first() =~= changed_rows(posts.drop_first(), change));
        lemma_unfold_each_changed(rest, change, posts.drop_first());
        let (siblings, left) = unfold_each(rest, posts.drop_first());
        let node = ThreadNode { post: first, replies };
        let node_after = ThreadNode {
            post: change(first),
            replies: changed_forest(replies, change),
        };
        assert(changed_forest(seq![node] + siblings, change) =~= seq![node_after] + changed_forest(
            siblings,
            change,
        ));
    } else {
        assert(changed_forest(Seq::<ThreadNode>::empty(), change) =~= Seq::<ThreadNode>::empty());
    }
}

/// What a post says has no part in where it stands: where the posts of a
/// thread are changed without touching their identifiers and the posts they
/// answer, the reply tree is the one from before, with the same change made
/// to the post of each node.
pub proof fn lemma_tree_ignores_content(
    rows: Seq<PostView>,
    change: spec_fn(PostView) -> PostView,
    post_id: usize,
)
    requires
        keeps_place(change),
    ensures
        thread_under(changed_rows(rows, change), post_id) == changed_forest(
            thread_under(rows, post_id),
            change,
        ),
{
    let groups = group_by_parent(rows);
    let after = group_by_parent(changed_rows(rows, change));
    lemma_groups_finite(rows);
    assert(after =~= changed_groups(groups, change)) by {
        assert forall|parent: usize|
            children_of(changed_rows(rows, change), parent) == changed_rows(
                children_of(rows, parent),
                change,
            ) by {
            lemma_children_of_changed(rows, change, parent);
        }
    }
    lemma_unfold_changed(groups, change, post_id);
}

/// Deleting a post changes what it shows and nothing else: in the tree
/// built after the post `deleted` has been marked at `at`, every post
/// stands where it stood, and the deleted one shows the placeholder.
pub proof fn lemma_deletion_keeps_tree(
    rows: Seq<PostView>,
    deleted: usize,
    at: chrono::NaiveDateTime,
    post_id: usize,
)
    ensures
        thread_under(changed_rows(rows, |post: PostView| post.deleted_if(deleted, at)), post_id)
            == changed_forest(
            thread_under(rows, post_id),
            |post: PostView| post.deleted_if(deleted, at),
        ),
{
    lemma_tree_ignores_content(rows, |post: PostView| post.deleted_if(deleted, at), post_id);
}

/// Posts of which no two have the same identifier.
pub open spec fn distinct_ids(posts: Seq<PostView>) -> bool {
    forall|i: int, j: int|
        #![trigger posts[i], posts[j]]
        0 <= i < j < posts.len() ==> posts[i].id != posts[j].id
}

/// Whether `post` is one of `rows`.
pub open spec fn is_row(rows: Seq<PostView>, post: PostView) -> bool {
    exists|r: int| 0 <= r < rows.len() && #[trigger] rows[r] == post
}

/// The direct replies to a post are rows, and different ones where the rows
/// have different identifiers.
pub proof fn lemma_children_are_rows(rows: Seq<PostView>, parent: usize)
    ensures
        forall|a: int|
            0 <= a < children_of(rows, parent).len() ==> is_row(
                rows,
                #[trigger] children_of(rows, parent)[a],
            ),
        distinct_ids(rows) ==> distinct_ids(children_of(rows, parent)),
    decreases rows.len(),
{
    let kids = children_of(rows, parent);
    if rows.len() > 0 {
        let earlier = rows.drop_last();
        let last = rows.len() - 1;
        lemma_children_are_rows(earlier, parent);
        let before = children_of(earlier, parent);
        assert forall|a: int| 0 <= a < kids.len() implies is_row(rows, #[trigger] kids[a]) by {
            if a < before.len() {
                assert(is_row(earlier, before[a]));
                let r = choose|r: int| 0 <= r < earlier.len() && #[trigger] earlier[r] == before[a];
                assert(rows[r] == kids[a]);
            } else {
                assert(rows[last] == kids[a]);
            }
        }
        if distinct_ids(rows) {
            assert(distinct_ids(earlier)) by {
                assert forall|i: int, j: int| 0 <= i < j < earlier.len() implies (
                #[trigger] earlier[i]).id != (#[trigger] earlier[j]).id by {
                    assert(rows[i].id != rows[j].id);
                }
            }
            assert forall|a: int, b: int| 0 <= a < b < kids.len() implies (#[trigger] kids[a]).id
                != (#[trigger] kids[b]).id by {
                if b < before.len() {
                    assert(before[a].id != before[b].id);
                } else {
                    assert(is_row(earlier, before[a]));
                    let r = choose|r: int|
                        0 <= r < earlier.len() && #[trigger] earlier[r] == before[a];
                    assert(rows[r].id != rows[last].id);
                }
            }
        }
    }
}

/// Among rows with different identifiers, an identifier tells the row.
proof fn lemma_same_id_same_row(rows: Seq<PostView>, one: PostView, other: PostView)
    requires
        distinct_ids(rows),
        is_row(rows, one),
        is_row(rows, other),
        one.id == other.id,
    ensures
        one == other,
{
    let i = choose|r: int| 0 <= r < rows.len() && #[trigger] rows[r] == one;
    let j = choose|r: int| 0 <= r < rows.len() && #[trigger] rows[r] == other;
    if i < j {
        assert(rows[i].id != rows[j].id);
    }
    if j < i {
        assert(rows[j].id != rows[i].id);
    }
}

/// Whether `post` answers a post whose group has been taken out of `groups`
/// on the way to `left`.
spec fn from_taken(post: PostView, groups: Groups, left: Groups) -> bool {
    post.parent_id matches Some(parent) && groups.contains_key(parent) && !left.contains_key(
        parent,
    )
}

proof fn lemma_unfold_takes_rows(rows: Seq<PostView>, groups: Groups, parent: usize)
    requires
        groups.dom().finite(),
        within(groups, group_by_parent(rows)),
    ensures
        forall|j: int|
            0 <= j < posts_in(unfold(groups, parent).0).len() ==> {
                let post = #[trigger] posts_in(unfold(groups, parent).0)[j];
                is_row(rows, post) && from_taken(post, groups, unfold(groups, parent).1)
            },
        distinct_ids(rows) ==> distinct_ids(posts_in(unfold(groups, parent).0)),
    decreases groups.dom().len(), 0nat, 0nat,
{
    if groups.contains_key(parent) {
        let fewer = groups.remove(parent);
        let kids = groups[parent];
        assert(kids == children_of(rows, parent));
        lemma_children_are_rows(rows, parent);
        lemma_children_answer_parent(rows, parent);
        lemma_unfold_each_leaves_less(fewer, kids);
        lemma_unfold_each_takes_rows(rows, fewer, kids, parent);
    } else {
        assert(posts_in(unfold(groups, parent).0) =~= Seq::<PostView>::empty());
    }
}

proof fn lemma_unfold_each_takes_rows(
    rows: Seq<PostView>,
    groups: Groups,
    posts: Seq<PostView>,
    parent: usize,
)
    requires
        groups.dom().finite(),
        within(groups, group_by_parent(rows)),
        !groups.contains_key(parent),
        forall|i: int|
            0 <= i < posts.len() ==> is_row(rows, #[trigger] posts[i]) && posts[i].parent_id
                == Some(parent),
        distinct_ids(rows) ==> distinct_ids(posts),
    ensures
        forall|j: int|
            0 <= j < posts_in(unfold_each(groups, posts).0).len() ==> {
                let post = #[trigger] posts_in(unfold_each(groups, posts).0)[j];
                &&& is_row(rows, post)
                &&& post.parent_id == Some(parent) || from_taken(
                    post,
                    groups,
                    unfold_each(groups, posts).1,
                )
                &&& post.parent_id == Some(parent) ==> exists|i: int|
                    0 <= i < posts.len() && #[trigger] posts[i] == post
            },
        distinct_ids(rows) ==> distinct_ids(posts_in(unfold_each(groups, posts).0)),
    decreases groups.dom().len(), 1nat, posts.len(),
{
    if posts.len() > 0 {
        let first = posts[0];
        let later = posts.drop_first();
        let (replies, rest) = unfold(groups, first.id);
        lemma_unfold_leaves_less(groups, first.id);
        lemma_unfold_takes_rows(rows, groups, first.id);
        assert forall|i: int| 0 <= i < later.len() implies is_row(rows, #[trigger] later[i])
            && later[i].parent_id == Some(parent) by {
            assert(later[i] == posts[i + 1]);
        }
        if distinct_ids(rows) {
            assert forall|a: int, b: int| 0 <= a < b < later.len() implies (#[trigger] later[a]).id
                != (#[trigger] later[b]).id by {
                assert(later[a] == posts[a + 1] && later[b] == posts[b + 1]);
            }
        }
        lemma_unfold_each_leaves_less(rest, later);
        lemma_unfold_each_takes_rows(rows, rest, later, parent);
        let (siblings, left) = unfold_each(rest, later);
        let forest = unfold_each(groups, posts).0;
        assert(forest == seq![ThreadNode { post: first, replies }] + siblings);
        assert(forest.drop_first() =~= siblings);
        let head = seq![first];
        let under = posts_in(replies);
        let after = posts_in(siblings);
        let flat = posts_in(forest);
        assert(flat == head + under + after);
        assert forall|j: int| 0 <= j < flat.len() implies {
            let post = #[trigger] flat[j];
            &&& is_row(rows, post)
            &&& post.parent_id == Some(parent) || from_taken(post, groups, left)
            &&& post.parent_id == Some(parent) ==> exists|i: int|
                0 <= i < posts.len() && #[trigger] posts[i] == post
        } by {
            if j == 0 {
                assert(posts[0] == flat[j]);
            } else if j < 1 + under.len() {
                assert(flat[j] == under[j - 1]);
            } else {
                let post = after[j - 1 - under.len()];
                assert(flat[j] == post);
                if post.parent_id == Some(parent) {
                    let i = choose|i: int| 0 <= i < later.len() && #[trigger] later[i] == post;
                    assert(posts[i + 1] == post);
                }
            }
        }
        if distinct_ids(rows) {
            assert forall|a: int, b: int| 0 <= a < b < flat.len() implies (#[trigger] flat[a]).id
                != (#[trigger] flat[b]).id by {
                if flat[a].id == flat[b].id {
                    lemma_same_id_same_row(rows, flat[a], flat[b]);
                    if a == 0 {
                        if b < 1 + under.len() {
                            assert(flat[b] == under[b - 1]);
                        } else {
                            let post = after[b - 1 - under.len()];
                            assert(flat[b] == post);
                            let i = choose|i: int|
                                0 <= i < later.len() && #[trigger] later[i] == post;
                            assert(posts[0].id != posts[i + 1].id);
                        }
                    } else if a < 1 + under.len() {
                        assert(flat[a] == under[a - 1]);
                        if b < 1 + under.len() {
                            assert(flat[b] == under[b - 1]);
                            assert(under[a - 1].id != under[b - 1].id);
                        } else {
                            assert(flat[b] == after[b - 1 - under.len()]);
                        }
                    } else {
                        assert(flat[a] == after[a - 1 - under.len()]);
                        assert(flat[b] == after[b - 1 - under.len()]);
                        assert(after[a - 1 - under.len()].id != after[b - 1 - under.len()].id);
                    }
                }
            }
        }
    } else {
        assert(posts_in(unfold_each(groups, posts).0) =~= Seq::<PostView>::empty());
    }
}

/// The posts of every group that unfolding takes out stand in the forest
/// that it gives.
pub proof fn lemma_unfold_shows_taken(groups: Groups, parent: usize)
    requires
        groups.dom().finite(),
    ensures
        forall|k: usize, a: int|
            groups.contains_key(k) && !unfold(groups, parent).1.contains_key(k) && 0 <= a
                < groups[k].len() ==> is_row(
                posts_in(unfold(groups, parent).0),
                #[trigger] groups[k][a],
            ),
    decreases groups.dom().len(), 0nat, 0nat,
{
    if groups.contains_key(parent) {
        let fewer = groups.remove(parent);
        lemma_unfold_each_shows_taken(fewer, groups[parent]);
        let (forest, left) = unfold_each(fewer, groups[parent]);
        lemma_unfold_each_leaves_less(fewer, groups[parent]);
        assert forall|k: usize, a: int|
            groups.contains_key(k) && !left.contains_key(k) && 0 <= a < groups[k].len() implies is_row(
            posts_in(forest),
            #[trigger] groups[k][a],
        ) by {
            if k != parent {
                assert(fewer.contains_key(k) && fewer[k] == groups[k]);
                assert(is_row(posts_in(forest), fewer[k][a]));
            }
        }
    }
}

proof fn lemma_unfold_each_shows_taken(groups: Groups, posts: Seq<PostView>)
    requires
        groups.dom().finite(),
    ensures
        forall|i: int|
            0 <= i < posts.len() ==> is_row(
                posts_in(unfold_each(groups, posts).0),
                #[trigger] posts[i],
            ),
        forall|k: usize, a: int|
            groups.contains_key(k) && !unfold_each(groups, posts).1.contains_key(k) && 0 <= a
                < groups[k].len() ==> is_row(
                posts_in(unfold_each(groups, posts).0),
                #[trigger] groups[k][a],
            ),
    decreases groups.dom().len(), 1nat, posts.len(),
{
    if posts.len() > 0 {
        let first = posts[0];
        let later = posts.drop_first();
        let (replies, rest) = unfold(groups, first.id);
        lemma_unfold_leaves_less(groups, first.id);
        lemma_unfold_shows_taken(groups, first.id);
        lemma_unfold_each_leaves_less(rest, later);
        lemma_unfold_each_shows_taken(rest, later);
        let (siblings, left) = unfold_each(rest, later);
        let forest = unfold_each(groups, posts).0;
        assert(forest == seq![ThreadNode { post: first, replies }] + siblings);
        assert(forest.drop_first() =~= siblings);
        let under = posts_in(replies);
        let after = posts_in(siblings);
        let flat = posts_in(forest);
        assert(flat == seq![first] + under + after);
        assert forall|x: PostView| is_row(under, x) implies is_row(flat, x) by {
            let j = choose|j: int| 0 <= j < under.len() && #[trigger] under[j] == x;
            assert(flat[1 + j] == x);
        }
        assert forall|x: PostView| is_row(after, x) implies is_row(flat, x) by {
            let j = choose|j: int| 0 <= j < after.len() && #[trigger] after[j] == x;
            assert(flat[1 + under.len() + j] == x);
        }
        assert forall|i: int| 0 <= i < posts.len() implies is_row(flat, #[trigger] posts[i]) by {
            if i == 0 {
                assert(flat[0] == posts[0]);
            } else {
                assert(later[i - 1] == posts[i]);
                assert(is_row(after, later[i - 1]));
            }
        }
        assert forall|k: usize, a: int|
            groups.contains_key(k) && !left.contains_key(k) && 0 <= a < groups[k].len() implies is_row(
            flat,
            #[trigger] groups[k][a],
        ) by {
            if rest.contains_key(k) {
                assert(rest[k] == groups[k]);
                assert(is_row(after, rest[k][a]));
            } else {
                assert(is_row(under, groups[k][a]));
            }
        }
    }
}

/// Every post of a reply tree is one of the rows that it was built from.
pub proof fn lemma_tree_is_made_of_rows(rows: Seq<PostView>, post_id: usize)
    ensures
        forall|j: int|
            0 <= j < posts_in(thread_under(rows, post_id)).len() ==> is_row(
                rows,
                #[trigger] posts_in(thread_under(rows, post_id))[j],
            ),
{
    lemma_groups_finite(rows);
    lemma_unfold_takes_rows(rows, group_by_parent(rows), post_id);
}

/// The reply tree of rows that can be shown as they are can be shown as it
/// is, and hangs together.
pub proof fn lemma_reply_tree_can_be_shown(forest: Seq<ThreadNode>, post_id: usize)
    requires
        is_reply_tree(forest, post_id),
    ensures
        all_redacted(posts_in(forest)),
        linked(forest, post_id),
{
    let rows = choose|rows: Seq<PostView>|
        all_redacted(rows) && forest == #[trigger] thread_under(rows, post_id);
    lemma_tree_is_made_of_rows(rows, post_id);
    lemma_tree_is_linked(rows, post_id);
    assert forall|j: int| 0 <= j < posts_in(forest).len() implies (#[trigger] posts_in(
        forest,
    )[j]).is_redacted() by {
        let post = posts_in(forest)[j];
        assert(is_row(rows, post));
        let r = choose|r: int| 0 <= r < rows.len() && #[trigger] rows[r] == post;
        assert(rows[r].is_redacted());
    }
}

/// No post stands twice in a reply tree: where the rows have different
/// identifiers, so have the posts of the tree, even where the rows are
/// otherwise malformed and a post is given as its own ancestor.
pub proof fn lemma_no_post_twice(rows: Seq<PostView>, post_id: usize)
    requires
        distinct_ids(rows),
    ensures
        distinct_ids(posts_in(thread_under(rows, post_id))),
{
    lemma_groups_finite(rows);
    lemma_unfold_takes_rows(rows, group_by_parent(rows), post_id);
}

} // verus!
