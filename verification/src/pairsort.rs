//! Stable sorting of (key, value) byte-string pairs by key, in byte-
//! lexicographic order. The specification is an insertion sort that places a
//! new pair after every pair with a key less than or equal to its own, which
//! keeps the original order of pairs with equal keys. The canonical request
//! encoding is built on this order.

use vstd::prelude::*;
use vstd::multiset::Multiset;
use vstd::seq_lib::lemma_multiset_commutative;
use crate::byteseq::{lex_leq, lemma_lex_leq_total, lemma_lex_leq_antisymmetric, lex_le};

verus! {

/// A (key, value) pair of byte strings, as specification values.
pub type SpecPair = (Seq<u8>, Seq<u8>);

/// A (key, value) pair of byte strings, as executable values.
pub type BytePair = (Vec<u8>, Vec<u8>);

/// The specification view of an executable pair.
pub open spec fn pair_view(p: BytePair) -> SpecPair {
    (p.0@, p.1@)
}

/// The specification view of a sequence of executable pairs.
pub open spec fn pairs_view(v: Seq<BytePair>) -> Seq<SpecPair> {
    v.map_values(|p: BytePair| pair_view(p))
}

/// Insert `x` into `s` after every pair whose key is less than or equal to
/// the key of `x`.
pub open spec fn insert_by_key(s: Seq<SpecPair>, x: SpecPair) -> Seq<SpecPair>
    decreases s.len(),
{
    if s.len() == 0 {
        seq![x]
    } else if lex_leq(s[0].0, x.0) {
        seq![s[0]] + insert_by_key(s.drop_first(), x)
    } else {
        seq![x] + s
    }
}

/// Stable insertion sort by key: pairs are processed left to right, so a pair
/// never moves before an earlier pair with an equal key.
pub open spec fn sort_by_key(s: Seq<SpecPair>) -> Seq<SpecPair>
    decreases s.len(),
{
    if s.len() == 0 {
        Seq::<SpecPair>::empty()
    } else {
        insert_by_key(sort_by_key(s.drop_last()), s.last())
    }
}

/// The keys of `s` are in nondecreasing byte-lexicographic order.
pub open spec fn sorted_by_key(s: Seq<SpecPair>) -> bool {
    forall|i: int, j: int| 0 <= i < j < s.len() ==> lex_leq(s[i].0, s[j].0)
}

/// No two pairs of `s` share a key.
pub open spec fn distinct_keys(s: Seq<SpecPair>) -> bool {
    forall|i: int, j: int| 0 <= i < j < s.len() ==> s[i].0 != s[j].0
}

proof fn lemma_insert_len(s: Seq<SpecPair>, x: SpecPair)
    ensures
        insert_by_key(s, x).len() == s.len() + 1,
    decreases s.len(),
{
    if s.len() > 0 && lex_leq(s[0].0, x.0) {
        lemma_insert_len(s.drop_first(), x);
    }
}

/// Inserting preserves sortedness.
proof fn lemma_insert_sorted(s: Seq<SpecPair>, x: SpecPair)
    requires
        sorted_by_key(s),
    ensures
        sorted_by_key(insert_by_key(s, x)),
    decreases s.len(),
{
    let r = insert_by_key(s, x);
    if s.len() == 0 {
    } else if lex_leq(s[0].0, x.0) {
        let t = s.drop_first();
        assert(sorted_by_key(t));
        lemma_insert_sorted(t, x);
        lemma_insert_len(t, x);
        let rt = insert_by_key(t, x);
        assert(r =~= seq![s[0]] + rt);
        // every element of rt is either x or an element of t, and s[0] is
        // below each of them
        assert forall|j: int| 1 <= j < r.len() implies lex_leq(r[0].0, r[j].0) by {
            lemma_insert_membership(t, x, j - 1);
            assert(r[j] == rt[j - 1]);
            if rt[j - 1] == x {
            } else {
                let k = choose|k: int| 0 <= k < t.len() && t[k] == rt[j - 1];
                assert(lex_leq(s[0].0, s[k + 1].0));
            }
        }
        assert forall|i: int, j: int| 0 <= i < j < r.len() implies lex_leq(r[i].0, r[j].0) by {
            if i >= 1 {
                assert(rt[i - 1] == r[i]);
                assert(rt[j - 1] == r[j]);
            }
        }
    } else {
        assert(r =~= seq![x] + s);
        lemma_lex_leq_total(s[0].0, x.0);
        assert(lex_leq(x.0, s[0].0));
        assert forall|i: int, j: int| 0 <= i < j < r.len() implies lex_leq(r[i].0, r[j].0) by {
            if i == 0 {
                if j == 1 {
                } else {
                    assert(lex_leq(s[0].0, s[j - 1].0));
                    crate::byteseq::lemma_lex_leq_transitive(x.0, s[0].0, s[j - 1].0);
                }
            }
        }
    }
}

/// Each element of `insert_by_key(s, x)` is `x` or one of the elements of
/// `s`.
proof fn lemma_insert_membership(s: Seq<SpecPair>, x: SpecPair, j: int)
    requires
        0 <= j < insert_by_key(s, x).len(),
    ensures
        insert_by_key(s, x)[j] == x || exists|k: int|
            0 <= k < s.len() && s[k] == insert_by_key(s, x)[j],
    decreases s.len(),
{
    lemma_insert_len(s, x);
    let r = insert_by_key(s, x);
    if s.len() == 0 {
    } else if lex_leq(s[0].0, x.0) {
        let t = s.drop_first();
        let rt = insert_by_key(t, x);
        assert(r =~= seq![s[0]] + rt);
        if j == 0 {
            assert(s[0] == r[0]);
        } else {
            lemma_insert_membership(t, x, j - 1);
            assert(r[j] == rt[j - 1]);
            if rt[j - 1] != x {
                let k = choose|k: int| 0 <= k < t.len() && t[k] == rt[j - 1];
                assert(s[k + 1] == r[j]);
            }
        }
    } else {
        assert(r =~= seq![x] + s);
        if j > 0 {
            assert(s[j - 1] == r[j]);
        }
    }
}

proof fn lemma_lex_leq_reflexive(a: Seq<u8>)
    ensures
        lex_leq(a, a),
    decreases a.len(),
{
    if a.len() > 0 {
        lemma_lex_leq_reflexive(a.drop_first());
    }
}

/// Inserting adds exactly the inserted pair to the multiset of pairs.
proof fn lemma_insert_multiset(s: Seq<SpecPair>, x: SpecPair)
    ensures
        insert_by_key(s, x).to_multiset() =~= s.to_multiset().insert(x),
    decreases s.len(),
{
    broadcast use vstd::seq_lib::group_to_multiset_ensures;

    let r = insert_by_key(s, x);
    if s.len() == 0 {
        assert(r =~= Seq::<SpecPair>::empty().push(x));
    } else if lex_leq(s[0].0, x.0) {
        let t = s.drop_first();
        lemma_insert_multiset(t, x);
        lemma_multiset_commutative(seq![s[0]], insert_by_key(t, x));
        lemma_multiset_commutative(seq![s[0]], t);
        assert(seq![s[0]] + t =~= s);
        assert(r =~= seq![s[0]] + insert_by_key(t, x));
    } else {
        lemma_multiset_commutative(seq![x], s);
        assert(r =~= seq![x] + s);
        assert(seq![x] =~= Seq::<SpecPair>::empty().push(x));
        assert(seq![x].to_multiset() =~= Multiset::<SpecPair>::empty().insert(x));
    }
}

/// The sorted sequence is sorted and holds exactly the pairs of the input.
pub proof fn lemma_sort_by_key_ensures(s: Seq<SpecPair>)
    ensures
        sorted_by_key(sort_by_key(s)),
        sort_by_key(s).to_multiset() =~= s.to_multiset(),
        sort_by_key(s).len() == s.len(),
    decreases s.len(),
{
    broadcast use vstd::seq_lib::group_to_multiset_ensures;

    if s.len() == 0 {
    } else {
        let t = s.drop_last();
        lemma_sort_by_key_ensures(t);
        lemma_insert_sorted(sort_by_key(t), s.last());
        lemma_insert_multiset(sort_by_key(t), s.last());
        lemma_insert_len(sort_by_key(t), s.last());
        assert(t.push(s.last()) =~= s);
        assert(t.push(s.last()).to_multiset() =~= t.to_multiset().insert(s.last()));
    }
}

/// Two sorted sequences holding the same pairs, with no repeated key, are
/// equal. This is what makes the canonical encoding order-independent.
pub proof fn lemma_sorted_unique(a: Seq<SpecPair>, b: Seq<SpecPair>)
    requires
        sorted_by_key(a),
        sorted_by_key(b),
        distinct_keys(a),
        distinct_keys(b),
        a.to_multiset() =~= b.to_multiset(),
    ensures
        a =~= b,
    decreases a.len(),
{
    broadcast use vstd::seq_lib::group_to_multiset_ensures;

    if a.len() == 0 {
        assert(b.to_multiset().len() == 0);
    } else {
        assert(a.contains(a[0]));
        assert(a.to_multiset().count(a[0]) > 0);
        assert(b.to_multiset().count(a[0]) > 0);
        assert(b.contains(a[0]));
        let i = b.lemma_contains_to_index(a[0]);
        assert(b.contains(b[0]));
        assert(b.to_multiset().count(b[0]) > 0);
        assert(a.to_multiset().count(b[0]) > 0);
        assert(a.contains(b[0]));
        let j = a.lemma_contains_to_index(b[0]);
        // keys of the heads are mutually ordered
        if i > 0 {
            assert(lex_leq(b[0].0, b[i].0));
        }
        if j > 0 {
            assert(lex_leq(a[0].0, a[j].0));
        }
        lemma_lex_leq_reflexive(a[0].0);
        lemma_lex_leq_reflexive(b[0].0);
        assert(lex_leq(b[0].0, a[0].0));
        assert(lex_leq(a[0].0, b[0].0));
        lemma_lex_leq_antisymmetric(a[0].0, b[0].0);
        // equal keys with distinct keys forces equal heads
        if b[0] != a[0] {
            assert(i > 0);
            assert(b[i].0 == b[0].0);
            assert(false);
        }
        // drop the equal heads and recurse
        assert(a.remove(0).to_multiset() =~= a.to_multiset().remove(a[0]));
        assert(b.remove(0).to_multiset() =~= b.to_multiset().remove(b[0]));
        let ta = a.remove(0);
        let tb = b.remove(0);
        assert(ta =~= a.drop_first());
        assert(tb =~= b.drop_first());
        assert(sorted_by_key(ta));
        assert(sorted_by_key(tb));
        assert(distinct_keys(ta));
        assert(distinct_keys(tb));
        lemma_sorted_unique(ta, tb);
        assert(a =~= seq![a[0]] + ta);
        assert(b =~= seq![b[0]] + tb);
    }
}

/// If `p` is a permutation of `q` (same pairs with their multiplicities) and
/// keys repeat in neither, both sort to the same sequence.
pub proof fn lemma_sort_of_permutation(p: Seq<SpecPair>, q: Seq<SpecPair>)
    requires
        p.to_multiset() =~= q.to_multiset(),
        distinct_keys(p),
        distinct_keys(q),
    ensures
        sort_by_key(p) =~= sort_by_key(q),
{
    broadcast use vstd::seq_lib::group_to_multiset_ensures;

    lemma_sort_by_key_ensures(p);
    lemma_sort_by_key_ensures(q);
    lemma_distinct_keys_of_multiset(p, sort_by_key(p));
    lemma_distinct_keys_of_multiset(q, sort_by_key(q));
    lemma_sorted_unique(sort_by_key(p), sort_by_key(q));
}

/// Distinct keys carry over to any reordering of the pairs.
proof fn lemma_distinct_keys_of_multiset(p: Seq<SpecPair>, r: Seq<SpecPair>)
    requires
        distinct_keys(p),
        p.to_multiset() =~= r.to_multiset(),
    ensures
        distinct_keys(r),
    decreases p.len(),
{
    broadcast use vstd::seq_lib::group_to_multiset_ensures;

    if !distinct_keys(r) {
        let (i, j) = choose|i: int, j: int|
            0 <= i < j < r.len() && #[trigger] r[i].0 == #[trigger] r[j].0;
        assert(r.contains(r[i]));
        assert(r.to_multiset().count(r[i]) > 0);
        assert(p.to_multiset().count(r[i]) > 0);
        assert(p.contains(r[i]));
        let pi = p.lemma_contains_to_index(r[i]);
        // remove one occurrence; the other pair with the same key survives
        let r1 = r.remove(i);
        let p1 = p.remove(pi);
        assert(r1.to_multiset() =~= r.to_multiset().remove(r[i]));
        assert(p1.to_multiset() =~= p.to_multiset().remove(p[pi]));
        assert(r1[j - 1] == r[j]);
        assert(r1.contains(r[j]));
        assert(r1.to_multiset().count(r[j]) > 0);
        assert(p1.to_multiset().count(r[j]) > 0);
        assert(p1.contains(r[j]));
        let pj = p1.lemma_contains_to_index(r[j]);
        // p1[pj] and p[pi] are distinct positions of p with equal keys
        let orig = if pj < pi {
            pj
        } else {
            pj + 1
        };
        assert(p[orig] == p1[pj]);
        assert(orig != pi);
        assert(p[orig].0 == p[pi].0);
        if orig < pi {
            assert(p[orig].0 != p[pi].0);
        } else {
            assert(p[pi].0 != p[orig].0);
        }
        assert(false);
    }
}

/// Executable insertion of a pair into a sorted vector of pairs.
fn insert_pair_exec(out: &mut Vec<BytePair>, x: BytePair)
    ensures
        pairs_view(final(out)@) =~= insert_by_key(pairs_view(old(out)@), pair_view(x)),
{
    let ghost s = pairs_view(out@);
    let ghost xv = pair_view(x);
    let mut pos: usize = 0;
    while pos < out.len() && lex_le(out[pos].0.as_slice(), x.0.as_slice())
        invariant
            0 <= pos <= out@.len(),
            forall|j: int| 0 <= j < pos ==> lex_leq(#[trigger] pairs_view(out@)[j].0, pair_view(x).0),
            s == pairs_view(out@),
            xv == pair_view(x),
        decreases out@.len() - pos,
    {
        pos = pos + 1;
    }
    let ghost bound_ok = pos < out@.len() ==> !lex_leq(s[pos as int].0, xv.0);
    out.insert(pos, x);
    proof {
        lemma_insert_at_position(s, xv, pos as int);
        assert(out@.map_values(|p: BytePair| pair_view(p)) =~= s.insert(pos as int, xv));
        assert(s.insert(pos as int, xv) =~= s.take(pos as int) + seq![xv] + s.skip(pos as int));
    }
}

/// When every key before `pos` is below the key of `x` and the key at `pos`
/// is not, `insert_by_key` places `x` exactly at `pos`.
proof fn lemma_insert_at_position(s: Seq<SpecPair>, x: SpecPair, pos: int)
    requires
        0 <= pos <= s.len(),
        forall|j: int| 0 <= j < pos ==> lex_leq(#[trigger] s[j].0, x.0),
        pos < s.len() ==> !lex_leq(s[pos].0, x.0),
    ensures
        insert_by_key(s, x) =~= s.take(pos) + seq![x] + s.skip(pos),
    decreases s.len(),
{
    if s.len() == 0 {
    } else if pos == 0 {
        assert(!lex_leq(s[0].0, x.0));
    } else {
        assert(lex_leq(s[0].0, x.0));
        let t = s.drop_first();
        lemma_insert_at_position(t, x, pos - 1);
        assert(insert_by_key(s, x) =~= seq![s[0]] + insert_by_key(t, x));
        assert(t.take(pos - 1) =~= s.take(pos).drop_first());
        assert(t.skip(pos - 1) =~= s.skip(pos));
        assert(seq![s[0]] + (t.take(pos - 1) + seq![x] + t.skip(pos - 1)) =~= s.take(pos)
            + seq![x] + s.skip(pos));
    }
}

/// Executable stable sort of (key, value) byte pairs by key.
pub fn sort_pairs(v: Vec<BytePair>) -> (r: Vec<BytePair>)
    ensures
        pairs_view(r@) =~= sort_by_key(pairs_view(v@)),
{
    let mut out: Vec<BytePair> = Vec::new();
    let mut i: usize = 0;
    let n = v.len();
    let mut v = v;
    proof {
        assert(pairs_view(v@.take(0)) =~= Seq::<SpecPair>::empty());
    }
    while i < n
        invariant
            0 <= i <= n,
            n == v@.len(),
            pairs_view(out@) =~= sort_by_key(pairs_view(v@.take(i as int))),
        decreases n - i,
    {
        let p = (v[i].0.clone(), v[i].1.clone());
        proof {
            assert(pair_view(p) == pair_view(v@[i as int]));
        }
        insert_pair_exec(&mut out, p);
        proof {
            let pre = pairs_view(v@.take(i as int));
            let cur = pairs_view(v@.take(i + 1));
            assert(v@.take(i + 1).drop_last() =~= v@.take(i as int));
            assert(cur.drop_last() =~= pre);
            assert(cur.last() == pair_view(v@[i as int]));
            assert(sort_by_key(cur) == insert_by_key(sort_by_key(pre), cur.last()));
        }
        i = i + 1;
    }
    proof {
        assert(v@.take(n as int) =~= v@);
    }
    out
}

} // verus!
