use vstd::prelude::*;

verus! {

broadcast use vstd::seq_lib::group_to_multiset_ensures;

/// `b` is `a` with the entries of `start..end` rearranged and the others
/// left in place.
pub open spec fn permuted_within(a: Seq<usize>, b: Seq<usize>, start: int, end: int) -> bool {
    &&& a.len() == b.len()
    &&& 0 <= start <= end <= a.len()
    &&& a.subrange(start, end).to_multiset() == b.subrange(start, end).to_multiset()
    &&& forall|k: int| 0 <= k < a.len() && !(start <= k < end) ==> #[trigger] a[k] == b[k]
}

/// Every entry of `s[start..end]` is below `n_keys`.
pub open spec fn keyed(s: Seq<usize>, n_keys: nat, start: int, end: int) -> bool {
    forall|k: int| start <= k < end ==> #[trigger] s[k] < n_keys
}

pub proof fn lemma_permuted_refl(a: Seq<usize>, start: int, end: int)
    requires
        0 <= start <= end <= a.len(),
    ensures
        permuted_within(a, a, start, end),
{
}

pub proof fn lemma_permuted_swap(a: Seq<usize>, start: int, end: int, x: int, y: int)
    requires
        0 <= start <= x < end <= a.len(),
        start <= y < end,
    ensures
        permuted_within(a, a.update(x, a[y]).update(y, a[x]), start, end),
{
    let b = a.update(x, a[y]).update(y, a[x]);
    let sa = a.subrange(start, end);
    assert(b.subrange(start, end) =~= sa.update(x - start, a[y]).update(y - start, a[x]));
    let m1 = sa.update(x - start, a[y]);
    assert(m1.to_multiset() == sa.to_multiset().insert(a[y]).remove(a[x]));
    assert(m1.update(y - start, a[x]).to_multiset() == m1.to_multiset().insert(a[x]).remove(
        m1[y - start],
    ));
    if x == y {
        assert(b =~= a);
    } else {
        assert(m1[y - start] == a[y]);
    }
    assert(b.subrange(start, end).to_multiset() =~= sa.to_multiset());
}

pub proof fn lemma_permuted_trans(a: Seq<usize>, b: Seq<usize>, c: Seq<usize>, start: int, end: int)
    requires
        permuted_within(a, b, start, end),
        permuted_within(b, c, start, end),
    ensures
        permuted_within(a, c, start, end),
{
}

/// Rearranging `start..mid` and then `mid..end` rearranges `start..end`.
pub proof fn lemma_permuted_join(
    a: Seq<usize>,
    b: Seq<usize>,
    c: Seq<usize>,
    start: int,
    mid: int,
    end: int,
)
    requires
        start <= mid <= end,
        permuted_within(a, b, start, mid),
        permuted_within(b, c, mid, end),
    ensures
        permuted_within(a, c, start, end),
{
    broadcast use vstd::seq_lib::lemma_multiset_commutative;

    assert(a.subrange(start, end) =~= a.subrange(start, mid) + a.subrange(mid, end));
    assert(b.subrange(start, end) =~= b.subrange(start, mid) + b.subrange(mid, end));
    assert(c.subrange(start, end) =~= c.subrange(start, mid) + c.subrange(mid, end));
    assert(a.subrange(mid, end) =~= b.subrange(mid, end));
    assert(b.subrange(start, mid) =~= c.subrange(start, mid));
}

/// A rearranged range holds the same primitives as before.
pub proof fn lemma_permuted_same_set(a: Seq<usize>, b: Seq<usize>, start: int, end: int)
    requires
        permuted_within(a, b, start, end),
    ensures
        a.subrange(start, end).to_set() == b.subrange(start, end).to_set(),
        forall|n: nat| keyed(a, n, start, end) ==> keyed(b, n, start, end),
{
    let sa = a.subrange(start, end);
    let sb = b.subrange(start, end);
    assert forall|x: usize| sa.to_set().contains(x) <==> sb.to_set().contains(x) by {
        assert(sa.contains(x) <==> sa.to_multiset().count(x) > 0);
        assert(sb.contains(x) <==> sb.to_multiset().count(x) > 0);
    }
    assert(sa.to_set() =~= sb.to_set());
    assert forall|n: nat| keyed(a, n, start, end) implies keyed(b, n, start, end) by {
        assert forall|k: int| start <= k < end implies #[trigger] b[k] < n by {
            assert(sb[k - start] == b[k]);
            assert(sb.to_set().contains(b[k]));
            assert(sa.to_set().contains(b[k]));
            let q = choose|q: int| 0 <= q < sa.len() && sa[q] == b[k];
            assert(a[start + q] == b[k]);
        }
    }
}

/// `x` is one of the entries of `s[start..end]`.
pub open spec fn occurs_in(s: Seq<usize>, start: int, end: int, x: usize) -> bool {
    exists|q: int| start <= q < end && s[q] == x
}

/// Every entry of a rearranged range comes from the same range before.
pub proof fn lemma_permuted_origin(a: Seq<usize>, b: Seq<usize>, start: int, end: int)
    requires
        permuted_within(a, b, start, end),
    ensures
        forall|k: int| start <= k < end ==> occurs_in(a, start, end, #[trigger] b[k]),
{
    lemma_permuted_same_set(a, b, start, end);
    let sa = a.subrange(start, end);
    let sb = b.subrange(start, end);
    assert forall|k: int| start <= k < end implies occurs_in(a, start, end, #[trigger] b[k]) by {
        assert(sb[k - start] == b[k]);
        assert(sb.to_set().contains(b[k]));
        assert(sa.to_set().contains(b[k]));
        let q = choose|q: int| 0 <= q < sa.len() && sa[q] == b[k];
        assert(sa[q] == a[start + q]);
        assert(start <= start + q < end && b[k] == a[start + q]);
    }
}

pub proof fn lemma_split_set(s: Seq<usize>, start: int, mid: int, end: int)
    requires
        0 <= start <= mid <= end <= s.len(),
    ensures
        s.subrange(start, end).to_set() == s.subrange(start, mid).to_set().union(
            s.subrange(mid, end).to_set(),
        ),
{
    let whole = s.subrange(start, end);
    let lo = s.subrange(start, mid);
    let hi = s.subrange(mid, end);
    assert forall|x: usize| whole.to_set().contains(x) <==> lo.to_set().union(
        hi.to_set(),
    ).contains(x) by {
        if whole.contains(x) {
            let q = choose|q: int| 0 <= q < whole.len() && whole[q] == x;
            if q < mid - start {
                assert(lo[q] == x);
            } else {
                assert(hi[q - (mid - start)] == x);
            }
        }
        if lo.contains(x) {
            let q = choose|q: int| 0 <= q < lo.len() && lo[q] == x;
            assert(whole[q] == x);
        }
        if hi.contains(x) {
            let q = choose|q: int| 0 <= q < hi.len() && hi[q] == x;
            assert(whole[q + (mid - start)] == x);
        }
    }
    assert(whole.to_set() =~= lo.to_set().union(hi.to_set()));
}

pub fn swap_entries(v: &mut Vec<usize>, x: usize, y: usize)
    requires
        x < old(v).len(),
        y < old(v).len(),
    ensures
        final(v)@ == old(v)@.update(x as int, old(v)@[y as int]).update(y as int, old(v)@[x as int]),
{
    let t = v[x];
    let u = v[y];
    v.set(x, u);
    v.set(y, t);
}

} // verus!
