//! Stable orderings, done by `slice::sort_by` on a list of positions.

use vstd::prelude::*;

verus! {

/// `0, 1, ..., n - 1`.
pub fn positions(n: usize) -> (v: Vec<usize>)
    ensures
        v@.len() == n,
        forall|i: int| 0 <= i < n ==> v@[i] == i,
{
    let mut v: Vec<usize> = Vec::new();
    let mut i: usize = 0;
    while i < n
        invariant
            i <= n,
            v@.len() == i,
            forall|k: int| 0 <= k < i ==> v@[k] == k,
        decreases n - i,
    {
        v.push(i);
        i = i + 1;
    }
    v
}

/// `p` lists each of `0..n` exactly once.
pub open spec fn is_perm(p: Seq<usize>, n: nat) -> bool {
    &&& p.len() == n
    &&& forall|i: int| 0 <= i < n ==> #[trigger] p[i] < n
    &&& forall|i: int, j: int| 0 <= i < j < n ==> #[trigger] p[i] != #[trigger] p[j]
}

/// `p` puts larger keys first, and keeps the given order among equal keys.
pub open spec fn desc_stable(keys: Seq<u64>, p: Seq<usize>) -> bool {
    forall|i: int, j: int|
        #![trigger p[i], p[j]]
        0 <= i < j < p.len() ==> keys[p[i] as int] > keys[p[j] as int] || (keys[p[i] as int]
            == keys[p[j] as int] && p[i] < p[j])
}

/// Character strings in code-point order (the order of `String`'s `Ord`:
/// UTF-8 byte order is code-point order).
pub open spec fn seq_lt(a: Seq<char>, b: Seq<char>) -> bool
    decreases a.len(),
{
    if a.len() == 0 {
        b.len() > 0
    } else if b.len() == 0 {
        false
    } else if a[0] != b[0] {
        a[0] < b[0]
    } else {
        seq_lt(a.drop_first(), b.drop_first())
    }
}

/// `p` puts directories first, then orders by `names`, and keeps the given
/// order among equal pairs.
pub open spec fn dirs_then_names(dirs: Seq<bool>, names: Seq<Seq<char>>, p: Seq<usize>) -> bool {
    forall|i: int, j: int|
        #![trigger p[i], p[j]]
        0 <= i < j < p.len() ==> {
            let a = p[i] as int;
            let b = p[j] as int;
            ||| (dirs[a] && !dirs[b])
            ||| (dirs[a] == dirs[b] && seq_lt(names[a], names[b]))
            ||| (dirs[a] == dirs[b] && names[a] == names[b] && a < b)
        }
}

/// Sorts positions by key, largest first, with `sort_by` (a stable sort):
/// `idx.sort_by(|a, b| keys[*b].cmp(&keys[*a]))`. The contract states what
/// the documentation of `sort_by` gives: the result is a permutation of
/// the input, ordered by the comparison, with equal elements left in their
/// first order.
#[verifier::external_body]
pub(crate) fn sort_positions_desc(idx: &mut Vec<usize>, keys: &Vec<u64>)
    requires
        old(idx)@.len() == keys@.len(),
        forall|i: int| 0 <= i < keys@.len() ==> old(idx)@[i] == i,
    ensures
        is_perm(final(idx)@, keys@.len()),
        desc_stable(keys@, final(idx)@),
{
    idx.sort_by(|a, b| keys[*b].cmp(&keys[*a]));
}

/// Sorts positions with directories first and then by name, with
/// `sort_by` (a stable sort):
/// `idx.sort_by(|a, b| dirs[*b].cmp(&dirs[*a]).then_with(|| names[*a].cmp(&names[*b])))`.
/// The contract states the documented result of `sort_by`: a permutation,
/// ordered by the comparison, equal elements in their first order.
#[verifier::external_body]
pub(crate) fn sort_positions_dirs_first(idx: &mut Vec<usize>, dirs: &Vec<bool>, names: &Vec<String>)
    requires
        old(idx)@.len() == dirs@.len(),
        names@.len() == dirs@.len(),
        forall|i: int| 0 <= i < dirs@.len() ==> old(idx)@[i] == i,
    ensures
        is_perm(final(idx)@, dirs@.len()),
        dirs_then_names(dirs@, crate::text::views(names@), final(idx)@),
{
    idx.sort_by(|a, b| dirs[*b].cmp(&dirs[*a]).then_with(|| names[*a].cmp(&names[*b])));
}

/// Positions of `keys`, largest key first, ties in their first order.
pub fn order_desc(keys: &Vec<u64>) -> (p: Vec<usize>)
    ensures
        is_perm(p@, keys@.len() as nat),
        desc_stable(keys@, p@),
{
    let mut p = positions(keys.len());
    sort_positions_desc(&mut p, keys);
    p
}

/// A permutation of `0..n` reaches every position: each `k < n` is `p[i]`
/// for some `i`.
pub proof fn lemma_perm_onto(p: Seq<usize>, n: nat, k: int)
    requires
        is_perm(p, n),
        0 <= k < n,
    ensures
        exists|i: int| 0 <= i < n && #[trigger] p[i] == k,
{
    let q = p.map_values(|x: usize| x as int);
    assert(q.no_duplicates()) by {
        assert forall|i: int, j: int| 0 <= i < q.len() && 0 <= j < q.len() && i != j implies q[i]
            != q[j] by {
            if i < j {
                assert(p[i] != p[j]);
            } else {
                assert(p[j] != p[i]);
            }
        }
    }
    q.unique_seq_to_set();
    vstd::seq_lib::seq_to_set_is_finite(q);
    vstd::set_lib::lemma_int_range(0, n as int);
    let r = vstd::set_lib::set_int_range(0, n as int);
    assert(q.to_set().subset_of(r)) by {
        assert forall|x: int| q.to_set().contains(x) implies r.contains(x) by {
            assert(q.contains(x));
            let i = choose|i: int| 0 <= i < q.len() && q[i] == x;
            assert(p[i] < n);
        }
    }
    vstd::set_lib::lemma_subset_equality(q.to_set(), r);
    assert(r.contains(k));
    assert(q.to_set().contains(k));
    assert(q.contains(k));
    let i = choose|i: int| 0 <= i < q.len() && q[i] == k;
    assert(p[i] == k);
}

} // verus!
