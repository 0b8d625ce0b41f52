//! The reply tree of a thread, rebuilt from the flat rows of the store.

use crate::error::{ForumError, ForumResult};
use crate::forum::forum_post::{all_redacted, posts_view, ForumPost, PostView};
use crate::forum::store::{query_posts, SELECT_THREAD_SQL};
use crate::forum::thread_laws::lemma_reply_tree_can_be_shown;
use rusqlite::Connection;
use std::collections::HashMap;
use vstd::prelude::*;

verus! {

/// A post with the replies below it.
#[derive(Debug)]
pub struct PostTreeNode {
    pub post: ForumPost,
    pub replies: Vec<PostTreeNode>,
}

/// A node of a reply tree as a mathematical value.
pub struct ThreadNode {
    pub post: PostView,
    pub replies: Seq<ThreadNode>,
}

impl View for PostTreeNode {
    type V = ThreadNode;

    open spec fn view(&self) -> ThreadNode
        decreases self,
    {
        ThreadNode { post: self.post@, replies: forest_view(self.replies@) }
    }
}

/// The views of a sequence of tree nodes, in the same order.
pub open spec fn forest_view(nodes: Seq<PostTreeNode>) -> Seq<ThreadNode>
    decreases nodes,
{
    Seq::new(nodes.len(), |i: int| if 0 <= i < nodes.len() { nodes[i]@ } else { arbitrary() })
}

/// The rows that answer `parent` directly, in the order of `rows`.
pub open spec fn children_of(rows: Seq<PostView>, parent: usize) -> Seq<PostView>
    decreases rows.len(),
{
    if rows.len() == 0 {
        Seq::empty()
    } else {
        let earlier = children_of(rows.drop_last(), parent);
        if rows.last().parent_id == Some(parent) {
            earlier.push(rows.last())
        } else {
            earlier
        }
    }
}

/// Groups of posts, each kept under the post that its posts answer.
pub type Groups = Map<usize, Seq<PostView>>;

/// The rows grouped by the post they answer: each post that has an answer
/// among `rows` is mapped to its direct answers, in the order of `rows`.
pub open spec fn group_by_parent(rows: Seq<PostView>) -> Groups {
    Map::new(
        |parent: usize| children_of(rows, parent).len() > 0,
        |parent: usize| children_of(rows, parent),
    )
}

/// The replies below `parent`, unfolded from `groups`, with the groups that
/// are left. A group is taken out of the mapping when its post is reached,
/// so no group is unfolded twice, whatever the rows were.
pub open spec fn unfold(groups: Groups, parent: usize) -> (Seq<ThreadNode>, Groups)
    decreases groups.dom().len(), 0nat, 0nat,
{
    if groups.dom().finite() && groups.contains_key(parent) {
        unfold_each(groups.remove(parent), groups[parent])
    } else {
        (Seq::empty(), groups)
    }
}

/// The nodes of `posts` in turn, each with the replies unfolded from the
/// groups that the posts before it have left.
pub open spec fn unfold_each(groups: Groups, posts: Seq<PostView>) -> (Seq<ThreadNode>, Groups)
    decreases groups.dom().len(), 1nat, posts.len(),
{
    if posts.len() == 0 {
        (Seq::empty(), groups)
    } else {
        let (replies, rest) = unfold(groups, posts[0].id);
        // Unfolding only ever takes groups out; the test makes that plain
        // to the termination argument and is never false.
        if rest.dom().len() <= groups.dom().len() {
            let (siblings, left) = unfold_each(rest, posts.drop_first());
            (seq![ThreadNode { post: posts[0], replies }] + siblings, left)
        } else {
            (Seq::empty(), groups)
        }
    }
}

/// The posts of a forest in reading order: each node, then what stands
/// below it, then the nodes after it.
pub open spec fn posts_in(forest: Seq<ThreadNode>) -> Seq<PostView>
    decreases forest,
{
    if forest.len() == 0 {
        Seq::empty()
    } else {
        seq![forest[0].post] + posts_in(forest[0].replies) + posts_in(forest.drop_first())
    }
}

/// The reply tree below `post_id` that `rows` describe.
pub open spec fn thread_under(rows: Seq<PostView>, post_id: usize) -> Seq<ThreadNode> {
    unfold(group_by_parent(rows), post_id).0
}

/// A forest in which every node at the top answers `parent`, and every
/// node below answers the node it hangs from.
pub open spec fn linked(forest: Seq<ThreadNode>, parent: usize) -> bool
    decreases forest,
{
    forall|i: int|
        0 <= i < forest.len() ==> {
            &&& (#[trigger] forest[i]).post.parent_id == Some(parent)
            &&& linked(forest[i].replies, forest[i].post.id)
        }
}

/// A forest that is the reply tree below `post_id` of some rows that can be
/// shown as they are.
pub open spec fn is_reply_tree(forest: Seq<ThreadNode>, post_id: usize) -> bool {
    exists|rows: Seq<PostView>|
        all_redacted(rows) && forest == #[trigger] thread_under(rows, post_id)
}

/// What a hash map of groups stands for.
pub open spec fn groups_model(grouped: Map<usize, Vec<ForumPost>>) -> Groups {
    Map::new(
        |parent: usize| grouped.contains_key(parent),
        |parent: usize| posts_view(grouped[parent]@),
    )
}

/// Sorts the rows into groups by the post they answer.
fn group_replies(posts: Vec<ForumPost>) -> (grouped: HashMap<usize, Vec<ForumPost>>)
    ensures
        groups_model(grouped@) == group_by_parent(posts_view(posts@)),
{
    broadcast use vstd::std_specs::hash::group_hash_axioms;

    let ghost rows = posts_view(posts@);
    let mut grouped: HashMap<usize, Vec<ForumPost>> = HashMap::new();
    for post in it: posts
        invariant
            it.seq() == posts@,
            rows == posts_view(posts@),
            groups_model(grouped@) =~= group_by_parent(rows.take(it.index())),
    {
        let ghost seen = rows.take(it.index());
        let ghost next = rows.take(it.index() + 1);
        let ghost before = grouped@;
        let ghost row = post@;
        proof {
            assert(next.drop_last() =~= seen);
            assert(next.last() == row);
        }
        match post.parent_id {
            Some(parent) => {
                let mut group = match grouped.remove(&parent) {
                    Some(group) => group,
                    None => Vec::new(),
                };
                let ghost earlier = group@;
                group.push(post);
                proof {
                    assert(posts_view(earlier) =~= children_of(seen, parent)) by {
                        if before.contains_key(parent) {
                            assert(groups_model(before)[parent] == posts_view(before[parent]@));
                        } else {
                            assert(!groups_model(before).contains_key(parent));
                        }
                    }
                    assert(posts_view(group@) =~= posts_view(earlier).push(row));
                }
                grouped.insert(parent, group);
                proof {
                    assert forall|k: usize|
                        groups_model(grouped@).contains_key(k) == group_by_parent(next).contains_key(
                            k,
                        ) by {
                        assert(groups_model(before).contains_key(k) == group_by_parent(
                            seen,
                        ).contains_key(k));
                    }
                    assert forall|k: usize| #[trigger]
                        groups_model(grouped@).contains_key(k) implies groups_model(grouped@)[k]
                        == group_by_parent(next)[k] by {
                        if k != parent {
                            assert(groups_model(before).contains_key(k));
                            assert(groups_model(before)[k] == group_by_parent(seen)[k]);
                        }
                    }
                }
            },
            None => {
                proof {
                    assert forall|k: usize| children_of(next, k) == children_of(seen, k) by {}
                }
            },
        }
    }
    proof {
        assert(rows.take(rows.len() as int) =~= rows);
    }
    grouped
}

/// A forest put in front of what unfolding the remaining posts gives.
pub open spec fn prepend(built: Seq<ThreadNode>, tail: (Seq<ThreadNode>, Groups)) -> (
    Seq<ThreadNode>,
    Groups,
) {
    (built + tail.0, tail.1)
}

/// Unfolds the replies below `parent_id`, taking each group out of `grouped`
/// as it is used.
fn unfold_replies(parent_id: usize, grouped: &mut HashMap<usize, Vec<ForumPost>>) -> (tree: Vec<
    PostTreeNode,
>)
    ensures
        (forest_view(tree@), groups_model(final(grouped)@)) == unfold(
            groups_model(old(grouped)@),
            parent_id,
        ),
        final(grouped)@.dom().subset_of(old(grouped)@.dom()),
    decreases old(grouped)@.dom().len(),
{
    broadcast use vstd::std_specs::hash::group_hash_axioms;

    let ghost whole = grouped@;
    proof {
        assert(groups_model(whole).dom() =~= whole.dom());
    }
    match grouped.remove(&parent_id) {
        None => {
            let tree: Vec<PostTreeNode> = Vec::new();
            proof {
                assert(forest_view(tree@) =~= Seq::empty());
                assert(grouped@ =~= whole);
            }
            tree
        },
        Some(children) => {
            let ghost start = grouped@;
            let ghost kids = posts_view(children@);
            proof {
                assert(groups_model(start) =~= groups_model(whole).remove(parent_id));
                assert(groups_model(whole)[parent_id] == kids);
                assert(start.dom().len() < whole.dom().len());
            }
            let mut tree: Vec<PostTreeNode> = Vec::new();
            proof {
                assert(forest_view(tree@) =~= Seq::empty());
                assert(kids.skip(0) =~= kids);
                assert(Seq::<ThreadNode>::empty() + unfold_each(groups_model(start), kids).0
                    =~= unfold_each(groups_model(start), kids).0);
            }
            for post in it: children
                invariant
                    it.seq() == children@,
                    kids == posts_view(children@),
                    grouped@.dom().subset_of(start.dom()),
                    start.dom().finite(),
                    start.dom().len() < whole.dom().len(),
                    whole == old(grouped)@,
                    unfold_each(groups_model(start), kids) == prepend(
                        forest_view(tree@),
                        unfold_each(groups_model(grouped@), kids.skip(it.index())),
                    ),
            {
                let ghost had = grouped@;
                let ghost built = forest_view(tree@);
                let ghost row = post@;
                let ghost index = it.index();
                proof {
                    vstd::set_lib::lemma_len_subset(had.dom(), start.dom());
                    assert(kids.skip(index)[0] == row);
                    assert(kids.skip(index).drop_first() =~= kids.skip(index + 1));
                    assert(groups_model(had).dom() =~= had.dom());
                }
                let replies = unfold_replies(post.id, grouped);
                proof {
                    assert(groups_model(grouped@).dom() =~= grouped@.dom());
                    vstd::set_lib::lemma_len_subset(grouped@.dom(), had.dom());
                }
                let node = PostTreeNode { post, replies };
                tree.push(node);
                proof {
                    let tail = unfold_each(groups_model(grouped@), kids.skip(index + 1));
                    assert(node@ == ThreadNode { post: row, replies: forest_view(replies@) });
                    assert(forest_view(tree@) =~= built.push(node@));
                    assert(built + (seq![node@] + tail.0) =~= built.push(node@) + tail.0);
                }
            }
            proof {
                assert(kids.skip(kids.len() as int) =~= Seq::<PostView>::empty());
                assert(forest_view(tree@) + Seq::<ThreadNode>::empty() =~= forest_view(tree@));
            }
            tree
        },
    }
}

impl PostTreeNode {
    /// Builds the reply tree below `post_id` from the rows of its thread:
    /// the rows are grouped by the post they answer in one pass, and the
    /// groups unfolded from `post_id` downwards, each taken out as it is
    /// used. Rows that answer no post are left out.
    pub fn assemble(post_id: usize, posts: Vec<ForumPost>) -> (tree: Vec<PostTreeNode>)
        ensures
            forest_view(tree@) == thread_under(posts_view(posts@), post_id),
    {
        let mut grouped = group_replies(posts);
        unfold_replies(post_id, &mut grouped)
    }

    /// The reply tree below the post `post_id`: its direct replies, oldest
    /// first, each with its own replies below it. The whole thread is
    /// fetched with one query, whatever its depth, and deleted posts keep
    /// their place in it.
    pub fn build_tree(conn: &Connection, post_id: usize) -> (built: ForumResult<
        Vec<PostTreeNode>,
    >)
        ensures
            match built {
                Ok(tree) => {
                    &&& is_reply_tree(forest_view(tree@), post_id)
                    &&& linked(forest_view(tree@), post_id)
                    &&& all_redacted(posts_in(forest_view(tree@)))
                },
                Err(e) => e == ForumError::PostNotFound(post_id) || e is DatabaseError,
            },
    {
        let post = match ForumPost::get(conn, post_id) {
            Ok(post) => post,
            Err(e) => { return Err(e); },
        };
        // The top of a thread has no `root_id` of its own, while every post
        // below it names it there.
        let root_id = post.thread_id();
        match query_posts(conn, SELECT_THREAD_SQL, Some(root_id)) {
            Ok(posts) => {
                let ghost rows = posts_view(posts@);
                let tree = PostTreeNode::assemble(post_id, posts);
                proof {
                    assert(forest_view(tree@) == thread_under(rows, post_id));
                    lemma_reply_tree_can_be_shown(forest_view(tree@), post_id);
                }
                Ok(tree)
            },
            Err(e) => Err(ForumError::DatabaseError(e)),
        }
    }
}

} // verus!
