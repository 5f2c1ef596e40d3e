use vstd::prelude::*;

use crate::input::{Content, NodeView, node_view, nodes_view, lemma_nodes_view, values_view};

verus! {

/// Whether a node satisfies the ancestor constraint: with no constraint any
/// node qualifies; with one, the node's parent must be exactly the given id.
pub open spec fn parent_matches(n: NodeView, parent: Option<Seq<char>>) -> bool {
    match parent {
        None => true,
        Some(p) => n.parent_id == Some(p),
    }
}

/// The current view projected from one subtree: the nodes at `depth` that
/// satisfy the ancestor constraint and are not degenerate, in tree order
/// (each node before its descendants, children in insertion order).
pub open spec fn spec_project(n: NodeView, depth: nat, parent: Option<Seq<char>>) -> Seq<NodeView>
    decreases n,
{
    let own: Seq<NodeView> = if n.depth == depth && parent_matches(n, parent)
        && !n.degenerate() {
        seq![n]
    } else {
        Seq::empty()
    };
    own + spec_project_seq(n.children, depth, parent)
}

/// The concatenated projections of a sequence of subtrees, in order.
pub open spec fn spec_project_seq(
    s: Seq<NodeView>,
    depth: nat,
    parent: Option<Seq<char>>,
) -> Seq<NodeView>
    decreases s,
{
    if s.len() == 0 {
        Seq::empty()
    } else {
        spec_project_seq(s.drop_last(), depth, parent) + spec_project(s.last(), depth, parent)
    }
}

/// Appending a subtree to the sequence appends its projection.
pub proof fn lemma_project_seq_push(
    t: Seq<NodeView>,
    x: NodeView,
    depth: nat,
    parent: Option<Seq<char>>,
)
    ensures
        spec_project_seq(t.push(x), depth, parent) == spec_project_seq(t, depth, parent)
            + spec_project(x, depth, parent),
{
    assert(t.push(x).drop_last() =~= t);
    assert(t.push(x).last() == x);
}

/// The view of a pushed vector of nodes is the pushed view.
pub proof fn lemma_nodes_view_push(s: Seq<Content>, x: Content)
    ensures
        nodes_view(s.push(x)) == nodes_view(s).push(node_view(x)),
{
    assert(s.push(x).drop_last() =~= s);
    assert(s.push(x).last() == x);
}

/// The view of an `Option<&String>` ancestor constraint.
pub open spec fn opt_id_view(p: Option<&String>) -> Option<Seq<char>> {
    match p {
        Some(s) => Some(s@),
        None => None,
    }
}

impl Content {
    /// Collect into `results` the current view of this subtree: the nodes at
    /// `depth` whose parent is `parent` (no constraint when `parent` is
    /// `None`), skipping degenerate nodes, in tree order.
    #[verifier::loop_isolation(false)]
    pub fn go_down_depth(
        &self,
        depth: usize,
        parent: Option<&String>,
        results: &mut Vec<Content>,
    )
        ensures
            nodes_view(final(results)@) == nodes_view(old(results)@) + spec_project(
                self@,
                depth as nat,
                opt_id_view(parent),
            ),
        decreases *self,
    {
        let ghost pv = opt_id_view(parent);
        let qualifies: bool = if self.depth != depth {
            false
        } else if self.values.len() == 0 && self.children.len() == 0 {
            false
        } else {
            match parent {
                None => true,
                Some(p) => match &self.parent_id {
                    Some(mine) => *mine == *p,
                    None => false,
                },
            }
        };
        proof {
            lemma_nodes_view(self.children@);
        }
        assert(self@.values.len() == values_view(self.values@).len());
        assert(self@.children.len() == nodes_view(self.children@).len());
        assert(self@.degenerate() == (self.values.len() == 0 && self.children.len() == 0));
        assert(qualifies == (self@.depth == depth as nat && parent_matches(self@, pv)
            && !self@.degenerate()));
        if qualifies {
            let own = self.clone();
            results.push(own);
            proof {
                lemma_nodes_view_push(old(results)@, own);
            }
        }
        let ghost after_own = nodes_view(results@);
        let ghost cs = nodes_view(self.children@);
        let mut i: usize = 0;
        while i < self.children.len()
            invariant
                i <= self.children.len(),
                nodes_view(results@) == after_own + spec_project_seq(
                    cs.subrange(0, i as int),
                    depth as nat,
                    pv,
                ),
            decreases self.children.len() - i,
        {
            proof {
                assert(cs.subrange(0, i as int).push(cs[i as int]) =~= cs.subrange(0, i + 1));
                lemma_project_seq_push(cs.subrange(0, i as int), cs[i as int], depth as nat, pv);
            }
            self.children[i].go_down_depth(depth, parent, results);
            i += 1;
        }
        proof {
            assert(cs.subrange(0, cs.len() as int) =~= cs);
            assert(nodes_view(results@) =~= nodes_view(old(results)@) + spec_project(
                self@,
                depth as nat,
                pv,
            ));
        }
    }
}

/// Every projected node sits exactly at the requested depth, satisfies the
/// ancestor constraint, and is not degenerate.
pub proof fn lemma_project_members(n: NodeView, depth: nat, parent: Option<Seq<char>>)
    ensures
        forall|i: int|
            0 <= i < spec_project(n, depth, parent).len() ==> {
                &&& (#[trigger] spec_project(n, depth, parent)[i]).depth == depth
                &&& parent_matches(spec_project(n, depth, parent)[i], parent)
                &&& !spec_project(n, depth, parent)[i].degenerate()
            },
    decreases n,
{
    lemma_project_seq_members(n.children, depth, parent);
}

/// The sequence form of [`lemma_project_members`].
pub proof fn lemma_project_seq_members(s: Seq<NodeView>, depth: nat, parent: Option<Seq<char>>)
    ensures
        forall|i: int|
            0 <= i < spec_project_seq(s, depth, parent).len() ==> {
                &&& (#[trigger] spec_project_seq(s, depth, parent)[i]).depth == depth
                &&& parent_matches(spec_project_seq(s, depth, parent)[i], parent)
                &&& !spec_project_seq(s, depth, parent)[i].degenerate()
            },
    decreases s,
{
    if s.len() > 0 {
        lemma_project_seq_members(s.drop_last(), depth, parent);
        lemma_project_members(s.last(), depth, parent);
    }
}

} // verus!
