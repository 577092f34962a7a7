//! Stable ordering of table positions by lexicographic integer keys.
//!
//! Every sortable value is represented as a sequence of `u64` (a text cell by the code
//! points of its characters, a number by a single order-preserving key). Positions are
//! ordered by their keys and, among equal keys, by the positions themselves: this is the
//! order a stable sort produces, and it is strict, so the sorted result is unique.
use vstd::prelude::*;

verus! {

/// Strict lexicographic order on key sequences (a proper prefix comes first).
pub open spec fn lex_lt(a: Seq<u64>, b: Seq<u64>) -> bool
    decreases a.len(),
{
    if b.len() == 0 {
        false
    } else if a.len() == 0 {
        true
    } else if a[0] != b[0] {
        a[0] < b[0]
    } else {
        lex_lt(a.drop_first(), b.drop_first())
    }
}

/// The keys held by a vector of key vectors.
pub open spec fn key_view(keys: &Vec<Vec<u64>>) -> Seq<Seq<u64>> {
    keys@.map_values(|k: Vec<u64>| k@)
}

/// Position `p` comes before position `q`: its key is smaller in the requested direction,
/// or the keys are equal and `p` is the earlier position.
pub open spec fn precedes(keys: Seq<Seq<u64>>, descending: bool, p: int, q: int) -> bool {
    if descending {
        lex_lt(keys[q], keys[p]) || (keys[p] == keys[q] && p < q)
    } else {
        lex_lt(keys[p], keys[q]) || (keys[p] == keys[q] && p < q)
    }
}

/// Every earlier entry of `s` precedes every later one.
pub open spec fn strictly_ordered(s: Seq<usize>, keys: Seq<Seq<u64>>, descending: bool) -> bool {
    forall|i: int, j: int|
        0 <= i < j < s.len() ==> #[trigger] precedes(keys, descending, s[i] as int, s[j] as int)
}

/// `perm` lists every position of `keys` exactly once, in the stable sorted order.
pub open spec fn is_stable_order(perm: Seq<usize>, keys: Seq<Seq<u64>>, descending: bool) -> bool {
    &&& perm.len() == keys.len()
    &&& forall|k: int| 0 <= k < perm.len() ==> #[trigger] perm[k] < keys.len()
    &&& forall|x: usize| x < keys.len() ==> #[trigger] perm.contains(x)
    &&& strictly_ordered(perm, keys, descending)
}

pub proof fn lemma_lex_irreflexive(a: Seq<u64>)
    ensures
        !lex_lt(a, a),
    decreases a.len(),
{
    if a.len() > 0 {
        lemma_lex_irreflexive(a.drop_first());
    }
}

pub proof fn lemma_lex_transitive(a: Seq<u64>, b: Seq<u64>, c: Seq<u64>)
    requires
        lex_lt(a, b),
        lex_lt(b, c),
    ensures
        lex_lt(a, c),
    decreases a.len(),
{
    if a.len() > 0 && b.len() > 0 && c.len() > 0 {
        if a[0] == b[0] && b[0] == c[0] {
            lemma_lex_transitive(a.drop_first(), b.drop_first(), c.drop_first());
        }
    }
}

pub proof fn lemma_lex_total(a: Seq<u64>, b: Seq<u64>)
    ensures
        a == b || lex_lt(a, b) || lex_lt(b, a),
    decreases a.len(),
{
    if a.len() > 0 && b.len() > 0 && a[0] == b[0] {
        lemma_lex_total(a.drop_first(), b.drop_first());
        if a.drop_first() == b.drop_first() {
            assert(a =~= seq![a[0]] + a.drop_first());
            assert(b =~= seq![b[0]] + b.drop_first());
        }
    } else if a.len() == 0 && b.len() == 0 {
        assert(a =~= b);
    }
}

pub proof fn lemma_lex_asymmetric(a: Seq<u64>, b: Seq<u64>)
    requires
        lex_lt(a, b),
    ensures
        !lex_lt(b, a),
{
    if lex_lt(b, a) {
        lemma_lex_transitive(a, b, a);
        lemma_lex_irreflexive(a);
    }
}

pub proof fn lemma_precedes_transitive(keys: Seq<Seq<u64>>, descending: bool, p: int, q: int, r: int)
    requires
        precedes(keys, descending, p, q),
        precedes(keys, descending, q, r),
    ensures
        precedes(keys, descending, p, r),
{
    if descending {
        if lex_lt(keys[r], keys[q]) && lex_lt(keys[q], keys[p]) {
            lemma_lex_transitive(keys[r], keys[q], keys[p]);
        }
    } else {
        if lex_lt(keys[p], keys[q]) && lex_lt(keys[q], keys[r]) {
            lemma_lex_transitive(keys[p], keys[q], keys[r]);
        }
    }
}

pub proof fn lemma_precedes_total(keys: Seq<Seq<u64>>, descending: bool, p: int, q: int)
    requires
        p != q,
    ensures
        precedes(keys, descending, p, q) || precedes(keys, descending, q, p),
{
    lemma_lex_total(keys[p], keys[q]);
}

pub proof fn lemma_precedes_asymmetric(keys: Seq<Seq<u64>>, descending: bool, p: int, q: int)
    requires
        precedes(keys, descending, p, q),
    ensures
        !precedes(keys, descending, q, p),
{
    if lex_lt(keys[p], keys[q]) {
        lemma_lex_asymmetric(keys[p], keys[q]);
    }
    if lex_lt(keys[q], keys[p]) {
        lemma_lex_asymmetric(keys[q], keys[p]);
    }
    lemma_lex_irreflexive(keys[p]);
}

/// Lexicographic "less than" on two key vectors.
pub fn key_less(a: &Vec<u64>, b: &Vec<u64>) -> (res: bool)
    ensures
        res == lex_lt(a@, b@),
{
    let mut i: usize = 0;
    proof {
        assert(a@.skip(0) =~= a@);
        assert(b@.skip(0) =~= b@);
    }
    while i < a.len() && i < b.len()
        invariant
            i <= a.len(),
            i <= b.len(),
            lex_lt(a@, b@) == lex_lt(a@.skip(i as int), b@.skip(i as int)),
        decreases a.len() - i,
    {
        if a[i] != b[i] {
            return a[i] < b[i];
        }
        proof {
            assert(a@.skip(i as int).drop_first() =~= a@.skip(i + 1));
            assert(b@.skip(i as int).drop_first() =~= b@.skip(i + 1));
        }
        i = i + 1;
    }
    i < b.len()
}

/// Equality of two key vectors.
pub fn keys_equal(a: &Vec<u64>, b: &Vec<u64>) -> (res: bool)
    ensures
        res == (a@ == b@),
{
    if a.len() != b.len() {
        return false;
    }
    let mut i: usize = 0;
    while i < a.len()
        invariant
            a.len() == b.len(),
            i <= a.len(),
            forall|k: int| 0 <= k < i ==> a@[k] == b@[k],
        decreases a.len() - i,
    {
        if a[i] != b[i] {
            return false;
        }
        i = i + 1;
    }
    proof {
        assert(a@ =~= b@);
    }
    true
}

fn precedes_at(keys: &Vec<Vec<u64>>, descending: bool, p: usize, q: usize) -> (res: bool)
    requires
        p < keys.len(),
        q < keys.len(),
    ensures
        res == precedes(key_view(keys), descending, p as int, q as int),
{
    let kp = &keys[p];
    let kq = &keys[q];
    if descending {
        key_less(kq, kp) || (p < q && keys_equal(kp, kq))
    } else {
        key_less(kp, kq) || (p < q && keys_equal(kp, kq))
    }
}

fn merge_runs(
    keys: &Vec<Vec<u64>>,
    descending: bool,
    left: Vec<usize>,
    right: Vec<usize>,
    lo: usize,
    mid: usize,
    hi: usize,
) -> (res: Vec<usize>)
    requires
        lo <= mid <= hi <= keys.len(),
        left.len() == mid - lo,
        right.len() == hi - mid,
        forall|k: int| 0 <= k < left.len() ==> lo <= #[trigger] left@[k] < mid,
        forall|k: int| 0 <= k < right.len() ==> mid <= #[trigger] right@[k] < hi,
        forall|x: usize| lo <= x < mid ==> #[trigger] left@.contains(x),
        forall|x: usize| mid <= x < hi ==> #[trigger] right@.contains(x),
        strictly_ordered(left@, key_view(keys), descending),
        strictly_ordered(right@, key_view(keys), descending),
    ensures
        res.len() == hi - lo,
        forall|k: int| 0 <= k < res.len() ==> lo <= #[trigger] res@[k] < hi,
        forall|x: usize| lo <= x < hi ==> #[trigger] res@.contains(x),
        strictly_ordered(res@, key_view(keys), descending),
{
    let ghost kv = key_view(keys);
    let mut out: Vec<usize> = Vec::new();
    let mut i: usize = 0;
    let mut j: usize = 0;
    while i < left.len() || j < right.len()
        invariant
            kv == key_view(keys),
            lo <= mid <= hi <= keys.len(),
            left.len() == mid - lo,
            right.len() == hi - mid,
            forall|k: int| 0 <= k < left.len() ==> lo <= #[trigger] left@[k] < mid,
            forall|k: int| 0 <= k < right.len() ==> mid <= #[trigger] right@[k] < hi,
            strictly_ordered(left@, kv, descending),
            strictly_ordered(right@, kv, descending),
            i <= left.len(),
            j <= right.len(),
            out.len() == i + j,
            forall|k: int| 0 <= k < out.len() ==> lo <= #[trigger] out@[k] < hi,
            forall|k: int| 0 <= k < i ==> out@.contains(#[trigger] left@[k]),
            forall|k: int| 0 <= k < j ==> out@.contains(#[trigger] right@[k]),
            strictly_ordered(out@, kv, descending),
            out.len() > 0 && i < left.len() ==> precedes(kv, descending, out@.last() as int, left@[i as int] as int),
            out.len() > 0 && j < right.len() ==> precedes(kv, descending, out@.last() as int, right@[j as int] as int),
        decreases left.len() + right.len() - i - j,
    {
        let take_left = if i < left.len() && j < right.len() {
            precedes_at(keys, descending, left[i], right[j])
        } else {
            i < left.len()
        };
        let ghost old_out = out@;
        let item = if take_left { left[i] } else { right[j] };
        proof {
            if i < left.len() && j < right.len() && !take_left {
                lemma_precedes_total(kv, descending, left@[i as int] as int, right@[j as int] as int);
            }
            assert forall|a: int, b: int| 0 <= a < b < old_out.len() + 1 implies
                #[trigger] precedes(kv, descending, old_out.push(item)[a] as int, old_out.push(item)[b] as int) by {
                if b == old_out.len() {
                    if a < old_out.len() - 1 {
                        lemma_precedes_transitive(kv, descending, old_out[a] as int, old_out.last() as int, item as int);
                    }
                }
            }
        }
        out.push(item);
        if take_left {
            i = i + 1;
        } else {
            j = j + 1;
        }
        proof {
            assert(old_out.push(item) == out@);
            assert(out@.last() == item);
            if take_left {
                if i < left.len() {
                    assert(precedes(kv, descending, left@[i - 1] as int, left@[i as int] as int));
                }
            } else {
                if j < right.len() {
                    assert(precedes(kv, descending, right@[j - 1] as int, right@[j as int] as int));
                }
            }
            assert forall|k: int| 0 <= k < i implies out@.contains(#[trigger] left@[k]) by {
                if k == i - 1 && take_left {
                    assert(out@[out.len() - 1] == left@[k]);
                } else {
                    let w = choose|w: int| 0 <= w < old_out.len() && old_out[w] == left@[k];
                    assert(out@[w] == left@[k]);
                }
            }
            assert forall|k: int| 0 <= k < j implies out@.contains(#[trigger] right@[k]) by {
                if k == j - 1 && !take_left {
                    assert(out@[out.len() - 1] == right@[k]);
                } else {
                    let w = choose|w: int| 0 <= w < old_out.len() && old_out[w] == right@[k];
                    assert(out@[w] == right@[k]);
                }
            }
        }
    }
    proof {
        assert forall|x: usize| lo <= x < hi implies #[trigger] out@.contains(x) by {
            if x < mid {
                assert(left@.contains(x));
                let k = choose|k: int| 0 <= k < left.len() && left@[k] == x;
                assert(out@.contains(left@[k]));
            } else {
                assert(right@.contains(x));
                let k = choose|k: int| 0 <= k < right.len() && right@[k] == x;
                assert(out@.contains(right@[k]));
            }
        }
    }
    out
}

fn sort_range(keys: &Vec<Vec<u64>>, descending: bool, lo: usize, hi: usize) -> (res: Vec<usize>)
    requires
        lo <= hi <= keys.len(),
    ensures
        res.len() == hi - lo,
        forall|k: int| 0 <= k < res.len() ==> lo <= #[trigger] res@[k] < hi,
        forall|x: usize| lo <= x < hi ==> #[trigger] res@.contains(x),
        strictly_ordered(res@, key_view(keys), descending),
    decreases hi - lo,
{
    if hi - lo <= 1 {
        let mut out: Vec<usize> = Vec::new();
        if hi - lo == 1 {
            out.push(lo);
            proof {
                assert forall|x: usize| lo <= x < hi implies #[trigger] out@.contains(x) by {
                    assert(out@[0] == x);
                }
            }
        }
        return out;
    }
    let mid = lo + (hi - lo) / 2;
    let left = sort_range(keys, descending, lo, mid);
    let right = sort_range(keys, descending, mid, hi);
    merge_runs(keys, descending, left, right, lo, mid, hi)
}

/// The positions `0..keys.len()` in stable sorted order of their keys: ascending, or
/// descending when `descending` is set; positions with equal keys keep their order.
pub fn stable_order(keys: &Vec<Vec<u64>>, descending: bool) -> (res: Vec<usize>)
    ensures
        is_stable_order(res@, key_view(keys), descending),
{
    sort_range(keys, descending, 0, keys.len())
}

} // verus!
