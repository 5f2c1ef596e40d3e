use vstd::prelude::*;

use crate::input::{Content, ContentValue, NodeView, ValueView, nodes_view, lemma_nodes_view,
    spec_max_depth, values_view};

verus! {

/// How many values of `s` are flagged as main primary content.
pub open spec fn mpc_in_values(s: Seq<ValueView>) -> nat
    decreases s,
{
    if s.len() == 0 {
        0
    } else {
        mpc_in_values(s.drop_last()) + if s.last().meta.is_main_primary_content {
            1nat
        } else {
            0nat
        }
    }
}

/// How many main-primary-content values sit on nodes of depth `d` in the
/// subtree under `n`.
pub open spec fn spec_mpc_count(n: NodeView, d: nat) -> nat
    decreases n,
{
    (if n.depth == d {
        mpc_in_values(n.values)
    } else {
        0nat
    }) + spec_mpc_count_seq(n.children, d)
}

/// The sequence form of [`spec_mpc_count`].
pub open spec fn spec_mpc_count_seq(s: Seq<NodeView>, d: nat) -> nat
    decreases s,
{
    if s.len() == 0 {
        0
    } else {
        spec_mpc_count_seq(s.drop_last(), d) + spec_mpc_count(s.last(), d)
    }
}

/// How many main-primary-content values the subtree under `n` holds in all.
pub open spec fn spec_mpc_total(n: NodeView) -> nat
    decreases n,
{
    mpc_in_values(n.values) + spec_mpc_total_seq(n.children)
}

/// The sequence form of [`spec_mpc_total`].
pub open spec fn spec_mpc_total_seq(s: Seq<NodeView>) -> nat
    decreases s,
{
    if s.len() == 0 {
        0
    } else {
        spec_mpc_total_seq(s.drop_last()) + spec_mpc_total(s.last())
    }
}

proof fn lemma_mpc_count_seq_push(s: Seq<NodeView>, x: NodeView, d: nat)
    ensures
        spec_mpc_count_seq(s.push(x), d) == spec_mpc_count_seq(s, d) + spec_mpc_count(x, d),
{
    assert(s.push(x).drop_last() =~= s);
    assert(s.push(x).last() == x);
}

proof fn lemma_mpc_total_seq_push(s: Seq<NodeView>, x: NodeView)
    ensures
        spec_mpc_total_seq(s.push(x)) == spec_mpc_total_seq(s) + spec_mpc_total(x),
{
    assert(s.push(x).drop_last() =~= s);
    assert(s.push(x).last() == x);
}

/// A prefix never counts more than the whole sequence.
proof fn lemma_mpc_count_seq_prefix_le(s: Seq<NodeView>, j: int, d: nat)
    requires
        0 <= j <= s.len(),
    ensures
        spec_mpc_count_seq(s.subrange(0, j), d) <= spec_mpc_count_seq(s, d),
    decreases s,
{
    if s.len() > 0 {
        if j == s.len() {
            assert(s.subrange(0, j) =~= s);
        } else {
            assert(s.subrange(0, j) =~= s.drop_last().subrange(0, j));
            lemma_mpc_count_seq_prefix_le(s.drop_last(), j, d);
        }
    } else {
        assert(s.subrange(0, j) =~= s);
    }
}

proof fn lemma_mpc_total_seq_prefix_le(s: Seq<NodeView>, j: int)
    requires
        0 <= j <= s.len(),
    ensures
        spec_mpc_total_seq(s.subrange(0, j)) <= spec_mpc_total_seq(s),
    decreases s,
{
    if s.len() > 0 {
        if j == s.len() {
            assert(s.subrange(0, j) =~= s);
        } else {
            assert(s.subrange(0, j) =~= s.drop_last().subrange(0, j));
            lemma_mpc_total_seq_prefix_le(s.drop_last(), j);
        }
    } else {
        assert(s.subrange(0, j) =~= s);
    }
}

/// No single depth counts more values than the whole tree holds.
pub proof fn lemma_mpc_count_le_total(n: NodeView, d: nat)
    ensures
        spec_mpc_count(n, d) <= spec_mpc_total(n),
    decreases n,
{
    lemma_mpc_count_le_total_seq(n.children, d);
}

proof fn lemma_mpc_count_le_total_seq(s: Seq<NodeView>, d: nat)
    ensures
        spec_mpc_count_seq(s, d) <= spec_mpc_total_seq(s),
    decreases s,
{
    if s.len() > 0 {
        lemma_mpc_count_le_total_seq(s.drop_last(), d);
        lemma_mpc_count_le_total(s.last(), d);
    }
}

/// Count the main-primary-content values directly on one node.
#[verifier::loop_isolation(false)]
fn count_values_mpc(vals: &Vec<ContentValue>) -> (k: usize)
    ensures
        k as nat == mpc_in_values(values_view(vals@)),
        k <= vals@.len(),
{
    let ghost m = values_view(vals@);
    let mut k: usize = 0;
    let mut i: usize = 0;
    while i < vals.len()
        invariant
            i <= vals.len(),
            k <= i,
            k as nat == mpc_in_values(m.subrange(0, i as int)),
        decreases vals.len() - i,
    {
        proof {
            assert(m.subrange(0, i + 1).drop_last() =~= m.subrange(0, i as int));
            assert(m.subrange(0, i + 1).last() == m[i as int]);
        }
        if vals[i].meta.is_main_primary_content {
            k += 1;
        }
        i += 1;
    }
    proof {
        assert(m.subrange(0, m.len() as int) =~= m);
    }
    k
}

impl Content {
    /// Count every main-primary-content value in the subtree, or report that
    /// the count does not fit a `u64` (`None`).
    #[verifier::loop_isolation(false)]
    fn total_mpc(&self) -> (r: Option<u64>)
        ensures
            match r {
                Some(t) => t as nat == spec_mpc_total(self@),
                None => spec_mpc_total(self@) > u64::MAX,
            },
        decreases *self,
    {
        proof {
            lemma_nodes_view(self.children@);
        }
        let ghost cs = nodes_view(self.children@);
        let own = count_values_mpc(&self.values);
        let mut total: u64 = own as u64;
        let mut i: usize = 0;
        while i < self.children.len()
            invariant
                i <= self.children.len(),
                total as nat == mpc_in_values(self@.values) + spec_mpc_total_seq(
                    cs.subrange(0, i as int),
                ),
            decreases self.children.len() - i,
        {
            proof {
                assert(cs.subrange(0, i as int).push(cs[i as int]) =~= cs.subrange(0, i + 1));
                lemma_mpc_total_seq_push(cs.subrange(0, i as int), cs[i as int]);
            }
            match self.children[i].total_mpc() {
                Some(t) => {
                    if total > u64::MAX - t {
                        proof {
                            lemma_mpc_total_seq_prefix_le(cs, i + 1);
                        }
                        return None;
                    }
                    total = total + t;
                },
                None => {
                    proof {
                        lemma_mpc_total_seq_prefix_le(cs, i + 1);
                    }
                    return None;
                },
            }
            i += 1;
        }
        proof {
            assert(cs.subrange(0, cs.len() as int) =~= cs);
        }
        Some(total)
    }

    /// Count the main-primary-content values sitting exactly at depth `d`,
    /// or report that the count does not fit a `u64` (`None`).
    #[verifier::loop_isolation(false)]
    fn count_mpc_at(&self, d: usize) -> (r: Option<u64>)
        ensures
            match r {
                Some(t) => t as nat == spec_mpc_count(self@, d as nat),
                None => spec_mpc_count(self@, d as nat) > u64::MAX,
            },
        decreases *self,
    {
        proof {
            lemma_nodes_view(self.children@);
        }
        let ghost cs = nodes_view(self.children@);
        let own: usize = if self.depth == d {
            count_values_mpc(&self.values)
        } else {
            0
        };
        let mut total: u64 = own as u64;
        let mut i: usize = 0;
        while i < self.children.len()
            invariant
                i <= self.children.len(),
                total as nat == (if self@.depth == d as nat {
                    mpc_in_values(self@.values)
                } else {
                    0nat
                }) + spec_mpc_count_seq(cs.subrange(0, i as int), d as nat),
            decreases self.children.len() - i,
        {
            proof {
                assert(cs.subrange(0, i as int).push(cs[i as int]) =~= cs.subrange(0, i + 1));
                lemma_mpc_count_seq_push(cs.subrange(0, i as int), cs[i as int], d as nat);
            }
            match self.children[i].count_mpc_at(d) {
                Some(t) => {
                    if total > u64::MAX - t {
                        proof {
                            lemma_mpc_count_seq_prefix_le(cs, i + 1, d as nat);
                        }
                        return None;
                    }
                    total = total + t;
                },
                None => {
                    proof {
                        lemma_mpc_count_seq_prefix_le(cs, i + 1, d as nat);
                    }
                    return None;
                },
            }
            i += 1;
        }
        proof {
            assert(cs.subrange(0, cs.len() as int) =~= cs);
        }
        Some(total)
    }
}

/// Whether depth `d` carries a non-trivial share of the tree's main primary
/// content: strictly more than 10% of the total.
pub open spec fn spec_candidate(n: NodeView, d: nat) -> bool {
    10 * spec_mpc_count(n, d) > spec_mpc_total(n)
}

/// The shallowest candidate depth at or above `d`, scanning up to the
/// deepest depth of the tree.
pub open spec fn spec_min_candidate_from(n: NodeView, d: nat) -> Option<nat>
    decreases spec_max_depth(n) + 1 - d,
{
    if d > spec_max_depth(n) {
        None
    } else if spec_candidate(n, d) {
        Some(d)
    } else {
        spec_min_candidate_from(n, d + 1)
    }
}

/// The coherent starting depth: one level shallower than the shallowest
/// depth whose main-primary-content share exceeds 10%, clamped to 0; `None`
/// when no depth passes the threshold.
pub open spec fn spec_estimate(n: NodeView) -> Option<nat> {
    match spec_min_candidate_from(n, 0) {
        None => None,
        Some(d) => Some(if d == 0 {
            0nat
        } else {
            (d - 1) as nat
        }),
    }
}

impl Content {
    /// Pick a useful starting depth before any user interaction: one level
    /// shallower than the shallowest depth holding more than 10% of the
    /// tree's main primary content. Returns `None` when no depth passes the
    /// threshold (or when the content counts would not fit a `u64`).
    #[verifier::loop_isolation(false)]
    pub fn coherent_depth(&self) -> (r: Option<usize>)
        ensures
            spec_mpc_total(self@) <= u64::MAX ==> match r {
                Some(u) => spec_estimate(self@) == Some(u as nat),
                None => spec_estimate(self@) is None,
            },
            spec_mpc_total(self@) > u64::MAX ==> r is None,
    {
        let total = match self.total_mpc() {
            Some(t) => t,
            None => {
                return None;
            },
        };
        let md = self.max_depth();
        let mut d: usize = 0;
        loop
            invariant
                d <= md,
                md as nat == spec_max_depth(self@),
                total as nat == spec_mpc_total(self@),
                spec_min_candidate_from(self@, 0) == spec_min_candidate_from(self@, d as nat),
            decreases md - d,
        {
            let c = match self.count_mpc_at(d) {
                Some(c) => c,
                None => {
                    proof {
                        lemma_mpc_count_le_total(self@, d as nat);
                        assert(false);
                    }
                    0
                },
            };
            if (c as u128) * 10 > (total as u128) {
                assert(spec_candidate(self@, d as nat));
                return Some(if d == 0 {
                    0
                } else {
                    d - 1
                });
            }
            assert(!spec_candidate(self@, d as nat));
            if d == md {
                proof {
                    assert(spec_min_candidate_from(self@, d as nat + 1) is None);
                }
                return None;
            }
            d += 1;
        }
    }

    /// The starting depth for a session: the coherent depth where one is
    /// found, 0 otherwise.
    pub fn starting_depth(&self) -> (r: usize)
        ensures
            spec_mpc_total(self@) <= u64::MAX ==> match spec_estimate(self@) {
                Some(e) => r as nat == e,
                None => r == 0,
            },
            spec_mpc_total(self@) > u64::MAX ==> r == 0,
    {
        match self.coherent_depth() {
            Some(d) => d,
            None => 0,
        }
    }
}

} // verus!
