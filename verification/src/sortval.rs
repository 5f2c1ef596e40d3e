use vstd::prelude::*;

use crate::input::{ContentValue, ValueView, values_view};

verus! {

/// Codepoint-lexicographic "less or equal" on text, decided from position
/// `i` on (the first `i` characters are assumed equal).
pub open spec fn lex_le_from(a: Seq<char>, b: Seq<char>, i: int) -> bool
    recommends
        0 <= i,
    decreases a.len() - i,
{
    if i >= a.len() {
        true
    } else if i >= b.len() {
        false
    } else if (a[i] as u32) < (b[i] as u32) {
        true
    } else if (a[i] as u32) > (b[i] as u32) {
        false
    } else {
        lex_le_from(a, b, i + 1)
    }
}

/// Codepoint-lexicographic "less or equal" on text.
pub open spec fn lex_le(a: Seq<char>, b: Seq<char>) -> bool {
    lex_le_from(a, b, 0)
}

/// The display order of two values: primary content sorts before
/// non-primary; within the same bucket, the `name` key decides,
/// lexicographically.
pub open spec fn value_le(a: ValueView, b: ValueView) -> bool {
    if a.meta.is_primary_content != b.meta.is_primary_content {
        a.meta.is_primary_content
    } else {
        lex_le(a.name, b.name)
    }
}

/// Any two texts compare in at least one direction.
proof fn lemma_lex_le_from_total(a: Seq<char>, b: Seq<char>, i: int)
    requires
        0 <= i,
    ensures
        lex_le_from(a, b, i) || lex_le_from(b, a, i),
    decreases a.len() - i,
{
    if i < a.len() && i < b.len() && (a[i] as u32) == (b[i] as u32) {
        lemma_lex_le_from_total(a, b, i + 1);
    }
}

/// Lexicographic order is transitive.
proof fn lemma_lex_le_from_trans(a: Seq<char>, b: Seq<char>, c: Seq<char>, i: int)
    requires
        0 <= i,
        lex_le_from(a, b, i),
        lex_le_from(b, c, i),
    ensures
        lex_le_from(a, c, i),
    decreases a.len() - i,
{
    if i < a.len() && i < b.len() && i < c.len() && (a[i] as u32) == (b[i] as u32) && (
    b[i] as u32) == (c[i] as u32) {
        lemma_lex_le_from_trans(a, b, c, i + 1);
    }
}

/// The display order is total.
pub proof fn lemma_value_le_total(a: ValueView, b: ValueView)
    ensures
        value_le(a, b) || value_le(b, a),
{
    lemma_lex_le_from_total(a.name, b.name, 0);
}

/// The display order is transitive.
pub proof fn lemma_value_le_trans(a: ValueView, b: ValueView, c: ValueView)
    requires
        value_le(a, b),
        value_le(b, c),
    ensures
        value_le(a, c),
{
    if a.meta.is_primary_content == b.meta.is_primary_content && b.meta.is_primary_content
        == c.meta.is_primary_content {
        lemma_lex_le_from_trans(a.name, b.name, c.name, 0);
    }
}

/// A sequence sorted by the display order.
pub open spec fn sorted_by_value_le(s: Seq<ValueView>) -> bool {
    forall|i: int, j: int| 0 <= i < j < s.len() ==> value_le(#[trigger] s[i], #[trigger] s[j])
}

/// Insert `x` into the sorted sequence `s`, after every element that
/// compares less-or-equal to it — the step of a stable insertion sort.
pub open spec fn insert_sorted(x: ValueView, s: Seq<ValueView>) -> Seq<ValueView>
    decreases s,
{
    if s.len() == 0 {
        seq![x]
    } else if value_le(s[0], x) {
        seq![s[0]] + insert_sorted(x, s.drop_first())
    } else {
        seq![x] + s
    }
}

/// The stable sort of `s` by the display order: elements are taken left to
/// right, each inserted after its equals.
pub open spec fn sort_values(s: Seq<ValueView>) -> Seq<ValueView>
    decreases s,
{
    if s.len() == 0 {
        Seq::empty()
    } else {
        insert_sorted(s.last(), sort_values(s.drop_last()))
    }
}

/// Where the insertion point is known — everything before `p` compares
/// less-or-equal to `x`, nothing from `p` on does — `insert_sorted` is the
/// plain splice at `p`.
proof fn lemma_insert_sorted_position(x: ValueView, s: Seq<ValueView>, p: int)
    requires
        0 <= p <= s.len(),
        forall|k: int| 0 <= k < p ==> value_le(#[trigger] s[k], x),
        forall|k: int| p <= k < s.len() ==> !value_le(#[trigger] s[k], x),
    ensures
        insert_sorted(x, s) == s.insert(p, x),
    decreases s.len(),
{
    if s.len() == 0 {
        assert(insert_sorted(x, s) =~= s.insert(p, x));
    } else if p == 0 {
        assert(!value_le(s[0], x));
        assert(insert_sorted(x, s) =~= s.insert(p, x));
    } else {
        assert(value_le(s[0], x));
        let t = s.drop_first();
        assert forall|k: int| 0 <= k < p - 1 implies value_le(#[trigger] t[k], x) by {
            assert(t[k] == s[k + 1]);
        }
        assert forall|k: int| p - 1 <= k < t.len() implies !value_le(#[trigger] t[k], x) by {
            assert(t[k] == s[k + 1]);
        }
        lemma_insert_sorted_position(x, t, p - 1);
        assert(insert_sorted(x, s) =~= s.insert(p, x));
    }
}

/// Splicing `x` in at such a point keeps the sequence sorted.
proof fn lemma_insert_preserves_sorted(x: ValueView, s: Seq<ValueView>, p: int)
    requires
        0 <= p <= s.len(),
        sorted_by_value_le(s),
        forall|k: int| 0 <= k < p ==> value_le(#[trigger] s[k], x),
        forall|k: int| p <= k < s.len() ==> !value_le(#[trigger] s[k], x),
    ensures
        sorted_by_value_le(s.insert(p, x)),
{
    let r = s.insert(p, x);
    s.insert_ensures(p, x);
    assert forall|i: int, j: int| 0 <= i < j < r.len() implies value_le(
        #[trigger] r[i],
        #[trigger] r[j],
    ) by {
        if i < p && j == p {
            assert(r[i] == s[i]);
        } else if i == p && j > p {
            assert(r[j] == s[j - 1]);
            lemma_value_le_total(s[j - 1], x);
        } else if i < p && j > p {
            assert(r[i] == s[i] && r[j] == s[j - 1]);
        } else if j < p {
            assert(r[i] == s[i] && r[j] == s[j]);
        } else {
            assert(r[i] == s[i - 1] && r[j] == s[j - 1]);
        }
    }
}

/// Exec comparison of two texts in the lexicographic order.
#[verifier::loop_isolation(false)]
fn lex_le_exec(a: &str, b: &str) -> (r: bool)
    ensures
        r == lex_le(a@, b@),
{
    let an = a.unicode_len();
    let bn = b.unicode_len();
    let mut i: usize = 0;
    loop
        invariant
            i <= an,
            i <= bn,
            lex_le(a@, b@) == lex_le_from(a@, b@, i as int),
        decreases an - i,
    {
        if i == an {
            return true;
        }
        if i == bn {
            return false;
        }
        let ca = a.get_char(i) as u32;
        let cb = b.get_char(i) as u32;
        if ca < cb {
            return true;
        }
        if ca > cb {
            return false;
        }
        i += 1;
    }
}

/// Exec comparison of two values in the display order.
pub fn value_le_exec(a: &ContentValue, b: &ContentValue) -> (r: bool)
    ensures
        r == value_le(a@, b@),
{
    if a.meta.is_primary_content != b.meta.is_primary_content {
        a.meta.is_primary_content
    } else {
        lex_le_exec(a.name.as_str(), b.name.as_str())
    }
}

/// Sort values into display order: primary content first, then by name —
/// a stable insertion sort, proved equal to [`sort_values`].
#[verifier::loop_isolation(false)]
pub fn sort_content_values(input: &Vec<ContentValue>) -> (r: Vec<ContentValue>)
    ensures
        values_view(r@) == sort_values(values_view(input@)),
        sorted_by_value_le(values_view(r@)),
{
    let ghost iv = values_view(input@);
    let mut out: Vec<ContentValue> = Vec::new();
    let mut i: usize = 0;
    while i < input.len()
        invariant
            i <= input.len(),
            values_view(out@) == sort_values(iv.subrange(0, i as int)),
            sorted_by_value_le(values_view(out@)),
        decreases input.len() - i,
    {
        let ghost ov = values_view(out@);
        let x = input[i].clone();
        let ghost xv = x@;
        let mut pos: usize = out.len();
        #[verifier::loop_isolation(true)]
        loop
            invariant
                pos <= out.len(),
                ov == values_view(out@),
                xv == x@,
                forall|k: int| pos <= k < ov.len() ==> !value_le(#[trigger] ov[k], xv),
            ensures
                pos <= out.len(),
                pos == 0 || value_le(ov[pos - 1], xv),
                forall|k: int| pos <= k < ov.len() ==> !value_le(#[trigger] ov[k], xv),
            decreases pos,
        {
            if pos == 0 {
                break ;
            }
            let goes_before = value_le_exec(&out[pos - 1], &x);
            proof {
                assert(ov[pos - 1] == out@[pos - 1]@);
            }
            if goes_before {
                break ;
            }
            pos -= 1;
        }
        proof {
            assert forall|k: int| 0 <= k < pos implies value_le(#[trigger] ov[k], xv) by {
                if k < pos - 1 {
                    lemma_value_le_trans(ov[k], ov[pos - 1], xv);
                }
            }
            lemma_insert_sorted_position(xv, ov, pos as int);
            lemma_insert_preserves_sorted(xv, ov, pos as int);
        }
        out.insert(pos, x);
        proof {
            assert(values_view(out@) =~= ov.insert(pos as int, xv)) by {
                ov.insert_ensures(pos as int, xv);
            }
            assert(iv.subrange(0, i + 1).drop_last() =~= iv.subrange(0, i as int));
            assert(iv.subrange(0, i + 1).last() == iv[i as int]);
            assert(values_view(out@) == sort_values(iv.subrange(0, i + 1)));
        }
        i += 1;
    }
    proof {
        assert(iv.subrange(0, iv.len() as int) =~= iv);
    }
    out
}

} // verus!
