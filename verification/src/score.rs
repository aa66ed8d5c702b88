//! Ranking of the graph's answers.
//!
//! A score is the bit pattern of a 32-bit float. The library never computes
//! with it; it orders scores by an integer key that follows the order of the
//! floats themselves.

use vstd::prelude::*;
use vstd::multiset::Multiset;
use vstd::seq_lib::{to_multiset_build, to_multiset_remove};
use crate::backend::Hit;

verus! {

/// Everything but the sign bit of a 32-bit float.
pub const SCORE_MAG: u32 = 0x7fff_ffff;

/// An integer that orders 32-bit floats as their values are ordered: the
/// magnitude, negated when the sign bit is set.
pub open spec fn score_key(bits: u32) -> int {
    if bits >> 31 == 1 {
        -((bits & SCORE_MAG) as int)
    } else {
        (bits & SCORE_MAG) as int
    }
}

/// The ordering key of a score.
pub fn key_of_score(bits: u32) -> (k: i64)
    ensures
        k == score_key(bits),
{
    let mag: u32 = bits & SCORE_MAG;
    if bits >> 31 == 1 {
        -(mag as i64)
    } else {
        mag as i64
    }
}

/// Answer `a` may stand before answer `b`: its score is higher, or the
/// scores are level and its index is not larger.
pub open spec fn before(a: Hit, b: Hit) -> bool {
    score_key(a.1) > score_key(b.1) || (score_key(a.1) == score_key(b.1) && a.0 <= b.0)
}

/// Whether `a` may stand before `b`.
pub fn stands_before(a: Hit, b: Hit) -> (r: bool)
    ensures
        r == before(a, b),
{
    let ka = key_of_score(a.1);
    let kb = key_of_score(b.1);
    ka > kb || (ka == kb && a.0 <= b.0)
}

/// The answers are in rank order: scores descend, and level scores come by
/// increasing index.
pub open spec fn ranked(s: Seq<Hit>) -> bool {
    forall|i: int, j: int| 0 <= i < j < s.len() ==> before(s[i], s[j])
}

/// Inserting an element adds it to the multiset of elements.
pub proof fn lemma_insert_multiset(s: Seq<Hit>, i: int, x: Hit)
    requires
        0 <= i <= s.len(),
    ensures
        s.insert(i, x).to_multiset() == s.to_multiset().insert(x),
{
    let t = s.insert(i, x);
    assert(t.remove(i) =~= s);
    assert(t[i] == x);
    to_multiset_remove(t, i);
    t.to_multiset_ensures();
    assert(t.contains(x));
    assert(t.to_multiset() =~= s.to_multiset().insert(x));
}

/// Puts the answers in rank order. The result holds the same answers, each
/// as often as before.
pub fn rank(hits: &Vec<Hit>) -> (r: Vec<Hit>)
    ensures
        ranked(r@),
        r@.to_multiset() == hits@.to_multiset(),
        r@.len() == hits@.len(),
{
    let mut out: Vec<Hit> = Vec::new();
    let mut n: usize = 0;
    assert(hits@.take(0) =~= Seq::<Hit>::empty());
    while n < hits.len()
        invariant
            n <= hits.len(),
            out@.len() == n,
            ranked(out@),
            out@.to_multiset() == hits@.take(n as int).to_multiset(),
        decreases hits.len() - n,
    {
        let x = hits[n];
        let mut pos: usize = 0;
        while pos < out.len() && stands_before(out[pos], x)
            invariant
                pos <= out.len(),
                forall|k: int| 0 <= k < pos ==> before(out@[k], x),
            decreases out.len() - pos,
        {
            pos += 1;
        }
        let ghost prev = out@;
        proof {
            lemma_insert_multiset(prev, pos as int, x);
            assert(hits@.take(n as int + 1) =~= hits@.take(n as int).push(x));
            to_multiset_build(hits@.take(n as int), x);
            if pos < prev.len() {
                assert(!before(prev[pos as int], x));
                assert(before(x, prev[pos as int]));
            }
        }
        out.insert(pos, x);
        proof {
            assert forall|i: int, j: int| 0 <= i < j < out@.len() implies before(out@[i], out@[j]) by {
                if j < pos {
                    assert(out@[i] == prev[i] && out@[j] == prev[j]);
                } else if j == pos {
                    assert(out@[i] == prev[i]);
                } else if i < pos {
                    assert(out@[i] == prev[i] && out@[j] == prev[j - 1]);
                } else if i == pos {
                    assert(out@[j] == prev[j - 1]);
                    if pos < j - 1 {
                        assert(before(prev[pos as int], prev[j - 1]));
                    }
                    lemma_before_chain(x, prev[pos as int], prev[j - 1]);
                } else {
                    assert(out@[i] == prev[i - 1] && out@[j] == prev[j - 1]);
                }
            }
        }
        n += 1;
    }
    assert(hits@.take(n as int) =~= hits@);
    proof {
        out@.to_multiset_ensures();
        hits@.to_multiset_ensures();
    }
    out
}

/// Rank order runs through: what stands before an answer stands before
/// everything that this answer stands before.
pub proof fn lemma_before_chain(a: Hit, b: Hit, c: Hit)
    requires
        before(a, b),
        b == c || before(b, c),
    ensures
        before(a, c),
{
}

/// No index is named by two candidates.
pub open spec fn distinct_hits(hits: Seq<Hit>) -> bool {
    forall|p: int, q: int| 0 <= p < q < hits.len() ==> (#[trigger] hits[p]).0 != (#[trigger] hits[q]).0
}

/// No index stands with two scores among the answers.
pub open spec fn one_score_per_index(m: Multiset<Hit>) -> bool {
    forall|x: Hit, y: Hit| #[trigger] m.count(x) > 0 && #[trigger] m.count(y) > 0 && x.0 == y.0 ==> x == y
}

/// Answers of which none names an index twice hold no index with two
/// scores.
pub proof fn lemma_distinct_scores(hits: Seq<Hit>)
    requires
        distinct_hits(hits),
    ensures
        one_score_per_index(hits.to_multiset()),
{
    hits.to_multiset_ensures();
    assert forall|x: Hit, y: Hit| #[trigger]
        hits.to_multiset().count(x) > 0 && #[trigger] hits.to_multiset().count(y) > 0 && x.0
            == y.0 implies x == y by {
        assert(hits.contains(x) && hits.contains(y));
        let i = choose|i: int| 0 <= i < hits.len() && hits[i] == x;
        let j = choose|j: int| 0 <= j < hits.len() && hits[j] == y;
        if i < j {
            assert(hits[i].0 != hits[j].0);
        } else if j < i {
            assert(hits[j].0 != hits[i].0);
        }
    }
}

/// The rank order of answers is one: two rankings of the same answers, in
/// which no index stands with two scores, are the same sequence.
pub proof fn law_rank_order_unique(a: Seq<Hit>, b: Seq<Hit>)
    requires
        ranked(a),
        ranked(b),
        a.to_multiset() == b.to_multiset(),
        one_score_per_index(a.to_multiset()),
    ensures
        a == b,
    decreases a.len(),
{
    a.to_multiset_ensures();
    b.to_multiset_ensures();
    assert(a.len() == b.len());
    if a.len() == 0 {
        assert(a =~= b);
    } else {
        let n = a.len() as int;
        let x = a[n - 1];
        let y = b[n - 1];
        assert(a.contains(x));
        assert(b.contains(y));
        assert(b.to_multiset().count(x) > 0);
        assert(b.contains(x));
        assert(a.to_multiset().count(y) > 0);
        assert(a.contains(y));
        let j = choose|j: int| 0 <= j < n && b[j] == x;
        let i = choose|i: int| 0 <= i < n && a[i] == y;
        if x != y {
            assert(j < n - 1 && i < n - 1);
            assert(before(b[j], b[n - 1]));
            assert(before(a[i], a[n - 1]));
            assert(x.0 == y.0);
        }
        to_multiset_remove(a, n - 1);
        to_multiset_remove(b, n - 1);
        assert(a.remove(n - 1) =~= a.drop_last());
        assert(b.remove(n - 1) =~= b.drop_last());
        let rest = a.drop_last().to_multiset();
        assert(one_score_per_index(rest)) by {
            assert forall|u: Hit, v: Hit| #[trigger] rest.count(u) > 0 && #[trigger] rest.count(v) > 0
                && u.0 == v.0 implies u == v by {
                assert(a.to_multiset().count(u) > 0 && a.to_multiset().count(v) > 0);
            }
        }
        assert(ranked(a.drop_last())) by {
            assert forall|p: int, q: int| 0 <= p < q < a.drop_last().len() implies before(
                a.drop_last()[p],
                a.drop_last()[q],
            ) by {
                assert(a.drop_last()[p] == a[p] && a.drop_last()[q] == a[q]);
            }
        }
        assert(ranked(b.drop_last())) by {
            assert forall|p: int, q: int| 0 <= p < q < b.drop_last().len() implies before(
                b.drop_last()[p],
                b.drop_last()[q],
            ) by {
                assert(b.drop_last()[p] == b[p] && b.drop_last()[q] == b[q]);
            }
        }
        law_rank_order_unique(a.drop_last(), b.drop_last());
        assert(a =~= a.drop_last().push(x));
        assert(b =~= b.drop_last().push(y));
    }
}

} // verus!
