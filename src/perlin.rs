use crate::permutation::{lemma_permuted_refl, lemma_permuted_swap, lemma_permuted_trans, permuted_within, swap_entries};
use crate::rng::{below, fresh_rng};
use rand::rngs::StdRng;
use vstd::prelude::*;

verus! {

broadcast use vstd::seq_lib::group_to_multiset_ensures;

/// Number of lattice points along each axis of the noise tables.
pub const POINT_COUNT: usize = 256;

/// The entries `0, 1, ..., POINT_COUNT - 1` in order.
pub open spec fn identity_table() -> Seq<usize> {
    Seq::new(POINT_COUNT as nat, |k: int| k as usize)
}

/// `p` holds each of `0 .. POINT_COUNT` exactly once.
pub open spec fn is_perm_table(p: Seq<usize>) -> bool {
    p.to_multiset() == identity_table().to_multiset()
}

/// Lattice coordinate `i` folded into `0 .. POINT_COUNT`.
pub open spec fn wrap(i: int) -> int {
    i % (POINT_COUNT as int)
}

/// The hash of lattice point `(i, j, k)`: one entry of each table, combined
/// by exclusive or.
pub open spec fn lattice_hash(
    px: Seq<usize>,
    py: Seq<usize>,
    pz: Seq<usize>,
    i: int,
    j: int,
    k: int,
) -> usize {
    px[wrap(i)] ^ py[wrap(j)] ^ pz[wrap(k)]
}

/// A permutation table has `POINT_COUNT` entries, each below `POINT_COUNT`.
pub proof fn lemma_perm_table_entries(p: Seq<usize>)
    requires
        is_perm_table(p),
    ensures
        p.len() == POINT_COUNT,
        forall|k: int| 0 <= k < p.len() ==> #[trigger] p[k] < POINT_COUNT,
{
    assert(p.len() == identity_table().len()) by {
        assert(p.to_multiset().len() == p.len());
        assert(identity_table().to_multiset().len() == identity_table().len());
    }
    assert forall|k: int| 0 <= k < p.len() implies #[trigger] p[k] < POINT_COUNT by {
        assert(p.contains(p[k]));
        assert(p.to_multiset().count(p[k]) > 0);
        assert(identity_table().contains(p[k]));
        let q = choose|q: int| 0 <= q < identity_table().len() && identity_table()[q] == p[k];
    }
}

/// Pseudo-random permutation tables for lattice noise, one per axis, and the
/// generator that shuffles them.
pub struct Perlin {
    perm_x: Vec<usize>,
    perm_y: Vec<usize>,
    perm_z: Vec<usize>,
    rng: StdRng,
}

impl Perlin {
    pub closed spec fn perm_x(&self) -> Seq<usize> {
        self.perm_x@
    }

    pub closed spec fn perm_y(&self) -> Seq<usize> {
        self.perm_y@
    }

    pub closed spec fn perm_z(&self) -> Seq<usize> {
        self.perm_z@
    }

    pub open spec fn wf(&self) -> bool {
        &&& is_perm_table(self.perm_x())
        &&& is_perm_table(self.perm_y())
        &&& is_perm_table(self.perm_z())
    }

    /// Empty tables and a freshly seeded generator.
    pub fn empty() -> (r: Perlin)
        ensures
            r.perm_x().len() == 0,
            r.perm_y().len() == 0,
            r.perm_z().len() == 0,
    {
        Perlin { perm_x: Vec::new(), perm_y: Vec::new(), perm_z: Vec::new(), rng: fresh_rng() }
    }

    /// Three independently shuffled permutation tables.
    pub fn new() -> (r: Perlin)
        ensures
            r.wf(),
    {
        let mut p = Perlin::empty();
        p.perm_x = p.generate_perm();
        p.perm_y = p.generate_perm();
        p.perm_z = p.generate_perm();
        p
    }

    /// A shuffled table holding each of `0 .. POINT_COUNT` once.
    fn generate_perm(&mut self) -> (r: Vec<usize>)
        ensures
            is_perm_table(r@),
            final(self).perm_x() == old(self).perm_x(),
            final(self).perm_y() == old(self).perm_y(),
            final(self).perm_z() == old(self).perm_z(),
    {
        let mut p: Vec<usize> = Vec::with_capacity(POINT_COUNT);
        let mut i: usize = 0;
        while i < POINT_COUNT
            invariant
                i <= POINT_COUNT,
                p@ == identity_table().take(i as int),
            decreases POINT_COUNT - i,
        {
            p.push(i);
            i = i + 1;
            assert(p@ =~= identity_table().take(i as int));
        }
        assert(p@ =~= identity_table());
        let ghost before = p@;
        self.permute(&mut p, POINT_COUNT);
        proof {
            assert(p@.subrange(0, POINT_COUNT as int) =~= p@);
            assert(before.subrange(0, POINT_COUNT as int) =~= before);
        }
        p
    }

    /// Shuffles `p[0..n]`: for `i` from `n - 1` down to 1, swaps `p[i]` with
    /// an entry drawn from `p[0..i]`.
    fn permute(&mut self, p: &mut Vec<usize>, n: usize)
        requires
            n <= old(p).len(),
        ensures
            permuted_within(old(p)@, final(p)@, 0, n as int),
            final(self).perm_x() == old(self).perm_x(),
            final(self).perm_y() == old(self).perm_y(),
            final(self).perm_z() == old(self).perm_z(),
    {
        let ghost orig = p@;
        proof {
            lemma_permuted_refl(orig, 0, n as int);
        }
        let mut i: usize = n;
        while i > 1
            invariant
                i <= n <= p.len(),
                permuted_within(orig, p@, 0, n as int),
                self.perm_x@ == old(self).perm_x@,
                self.perm_y@ == old(self).perm_y@,
                self.perm_z@ == old(self).perm_z@,
            decreases i,
        {
            i = i - 1;
            let target = below(&mut self.rng, i);
            let ghost before = p@;
            swap_entries(p, i, target);
            proof {
                lemma_permuted_swap(before, 0, n as int, i as int, target as int);
                lemma_permuted_trans(orig, before, p@, 0, n as int);
            }
        }
    }

    /// Index of the gradient at lattice point `(i, j, k)`; always below
    /// `POINT_COUNT`.
    pub fn corner(&self, i: i64, j: i64, k: i64) -> (r: usize)
        requires
            self.wf(),
        ensures
            r == lattice_hash(self.perm_x(), self.perm_y(), self.perm_z(), i as int, j as int, k as int),
            r < POINT_COUNT,
    {
        proof {
            lemma_perm_table_entries(self.perm_x@);
            lemma_perm_table_entries(self.perm_y@);
            lemma_perm_table_entries(self.perm_z@);
        }
        let a = self.perm_x[wrap_index(i)];
        let b = self.perm_y[wrap_index(j)];
        let c = self.perm_z[wrap_index(k)];
        proof {
            assert(a < 256 && b < 256 && c < 256 ==> a ^ b ^ c < 256) by (bit_vector);
        }
        a ^ b ^ c
    }
}

/// Folds a lattice coordinate into `0 .. POINT_COUNT`, negative ones included.
fn wrap_index(i: i64) -> (r: usize)
    ensures
        r as int == wrap(i as int),
        r < POINT_COUNT,
{
    let m = i % 256;
    if m < 0 {
        (m + 256) as usize
    } else {
        m as usize
    }
}

} // verus!
