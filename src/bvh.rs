use crate::permutation::{
    lemma_permuted_join, lemma_permuted_refl, lemma_permuted_same_set, lemma_permuted_swap,
    lemma_permuted_origin, lemma_permuted_trans, lemma_split_set, permuted_within, swap_entries,
    keyed, occurs_in,
};
use crate::rng::{below, fresh_rng};
use rand::rngs::StdRng;
use vstd::prelude::*;

verus! {

/// One child of a BVH node: a primitive of the scene, by its index, or a
/// nested node.
pub enum BvhChild {
    Object(usize),
    Node(Box<BVHnode>),
}

/// A node of a bounding volume hierarchy over the primitives of a scene.
///
/// The hierarchy holds indices into the scene's primitive list; the bounding
/// boxes that make traversal cheap are computed by whoever owns the
/// geometry.
pub struct BVHnode {
    pub left: BvhChild,
    pub right: BvhChild,
    /// The axis (0, 1 or 2) the node's primitives were ordered along.
    pub axis: usize,
}

impl BvhChild {
    /// The primitives found under this child.
    pub open spec fn objects(self) -> Set<usize>
        decreases self,
    {
        match self {
            BvhChild::Object(o) => set![o],
            BvhChild::Node(n) => n.left.objects().union(n.right.objects()),
        }
    }
}

impl BVHnode {
    /// The primitives found under this node.
    pub open spec fn objects(self) -> Set<usize> {
        self.left.objects().union(self.right.objects())
    }
}

/// Sort key of primitive `s[p]` along `axis`.
pub open spec fn key_at(s: Seq<usize>, keys: Seq<[u64; 3]>, axis: int, p: int) -> u64 {
    keys[s[p] as int][axis]
}

/// No primitive of `s[start..mid]` has a greater sort key along `axis`
/// than a primitive of `s[mid..end]`.
pub open spec fn split_by_key(
    s: Seq<usize>,
    keys: Seq<[u64; 3]>,
    axis: int,
    start: int,
    mid: int,
    end: int,
) -> bool {
    forall|a: int, b: int|
        start <= a < mid <= b < end ==> key_at(s, keys, axis, a) <= key_at(s, keys, axis, b)
}

/// The shape of a node built over `before[start..end]`, which the build
/// left as `after[start..end]`: one primitive fills both children; of two,
/// the first goes left only where its sort key along the node's axis is
/// strictly smaller; more are split at the middle into two nested nodes, no
/// key on the left above a key on the right.
pub open spec fn node_shape(
    r: BVHnode,
    before: Seq<usize>,
    after: Seq<usize>,
    keys: Seq<[u64; 3]>,
    start: int,
    end: int,
) -> bool {
    let mid = start + (end - start) / 2;
    &&& r.axis < 3
    &&& end - start == 1 ==> r.left == BvhChild::Object(before[start]) && r.right
        == BvhChild::Object(before[start])
    &&& end - start == 2 ==> if key_at(before, keys, r.axis as int, start) < key_at(
        before,
        keys,
        r.axis as int,
        start + 1,
    ) {
        r.left == BvhChild::Object(before[start]) && r.right == BvhChild::Object(before[start + 1])
    } else {
        r.left == BvhChild::Object(before[start + 1]) && r.right == BvhChild::Object(before[start])
    }
    &&& end - start >= 3 ==> {
        &&& r.left is Node
        &&& r.right is Node
        &&& r.left.objects() == after.subrange(start, mid).to_set()
        &&& r.right.objects() == after.subrange(mid, end).to_set()
        &&& split_by_key(after, keys, r.axis as int, start, mid, end)
    }
}

/// `s[start..end]` is in non-decreasing order of sort key along `axis`.
pub open spec fn sorted_within(
    s: Seq<usize>,
    keys: Seq<[u64; 3]>,
    axis: int,
    start: int,
    end: int,
) -> bool {
    forall|a: int, b: int|
        start <= a < b < end ==> key_at(s, keys, axis, a) <= key_at(s, keys, axis, b)
}

/// Sorts `objects[start..end]` in place by sort key along `axis`, leaving
/// the other entries where they are.
pub fn sort_range(objects: &mut Vec<usize>, keys: &Vec<[u64; 3]>, axis: usize, start: usize, end: usize)
    requires
        start <= end <= old(objects).len(),
        axis < 3,
        keyed(old(objects)@, keys@.len(), start as int, end as int),
    ensures
        permuted_within(old(objects)@, final(objects)@, start as int, end as int),
        keyed(final(objects)@, keys@.len(), start as int, end as int),
        sorted_within(final(objects)@, keys@, axis as int, start as int, end as int),
{
    let ghost orig = objects@;
    let ghost ax = axis as int;
    proof {
        lemma_permuted_refl(orig, start as int, end as int);
    }
    if start == end {
        return;
    }
    let mut i: usize = start + 1;
    while i < end
        invariant
            start < i <= end,
            end <= objects.len(),
            ax == axis,
            axis < 3,
            permuted_within(orig, objects@, start as int, end as int),
            keyed(objects@, keys@.len(), start as int, end as int),
            sorted_within(objects@, keys@, ax, start as int, i as int),
        decreases end - i,
    {
        let mut j: usize = i;
        while j > start && keys[objects[j - 1]][axis] > keys[objects[j]][axis]
            invariant
                start <= j <= i < end,
                end <= objects.len(),
                ax == axis,
                axis < 3,
                permuted_within(orig, objects@, start as int, end as int),
                keyed(objects@, keys@.len(), start as int, end as int),
                sorted_within(objects@, keys@, ax, start as int, j as int),
                sorted_within(objects@, keys@, ax, j as int, i + 1),
                forall|a: int, b: int|
                    start <= a < j < b <= i ==> key_at(objects@, keys@, ax, a) <= key_at(
                        objects@,
                        keys@,
                        ax,
                        b,
                    ),
            decreases j,
        {
            let ghost before = objects@;
            swap_entries(objects, j - 1, j);
            proof {
                lemma_permuted_swap(before, start as int, end as int, j - 1, j as int);
                lemma_permuted_trans(orig, before, objects@, start as int, end as int);
                lemma_permuted_same_set(before, objects@, start as int, end as int);
                let s = objects@;
                let jj = j as int;
                assert(key_at(before, keys@, ax, jj - 1) > key_at(before, keys@, ax, jj));
                assert(forall|p: int|
                    0 <= p < s.len() && p != jj - 1 && p != jj ==> #[trigger] s[p] == before[p]);
                assert(s[jj - 1] == before[jj] && s[jj] == before[jj - 1]);
                assert forall|a: int, b: int| start <= a < b < jj - 1 implies key_at(
                    s,
                    keys@,
                    ax,
                    a,
                ) <= key_at(s, keys@, ax, b) by {
                    assert(s[a] == before[a] && s[b] == before[b]);
                    assert(key_at(before, keys@, ax, a) <= key_at(before, keys@, ax, b));
                }
                assert forall|a: int, b: int| jj - 1 <= a < b < i + 1 implies key_at(
                    s,
                    keys@,
                    ax,
                    a,
                ) <= key_at(s, keys@, ax, b) by {
                    if a == jj - 1 {
                        if b > jj {
                            assert(s[b] == before[b]);
                            assert(key_at(before, keys@, ax, jj) <= key_at(before, keys@, ax, b));
                        }
                    } else if a == jj {
                        assert(s[b] == before[b]);
                        assert(key_at(before, keys@, ax, jj - 1) <= key_at(before, keys@, ax, b));
                    } else {
                        assert(s[a] == before[a] && s[b] == before[b]);
                        assert(key_at(before, keys@, ax, a) <= key_at(before, keys@, ax, b));
                    }
                }
                assert forall|a: int, b: int| start <= a < jj - 1 < b <= i implies key_at(
                    s,
                    keys@,
                    ax,
                    a,
                ) <= key_at(s, keys@, ax, b) by {
                    assert(s[a] == before[a]);
                    if b == jj {
                        assert(key_at(before, keys@, ax, a) <= key_at(before, keys@, ax, jj - 1));
                    } else {
                        assert(s[b] == before[b]);
                        assert(key_at(before, keys@, ax, a) <= key_at(before, keys@, ax, b));
                    }
                }
            }
            j = j - 1;
        }
        proof {
            let s = objects@;
            assert forall|a: int, b: int| start <= a < b < i + 1 implies key_at(
                s,
                keys@,
                ax,
                a,
            ) <= key_at(s, keys@, ax, b) by {
                if j > start && a < j && b == j {
                    assert(key_at(s, keys@, ax, a) <= key_at(s, keys@, ax, j - 1));
                }
            }
        }
        i = i + 1;
    }
}

impl BVHnode {
    /// Builds a hierarchy over the primitives `objects[start..end]`, whose
    /// sort keys along each axis are `keys[o]`. Every primitive of the range
    /// ends up under the node; the range is reordered in place, the rest of
    /// `objects` is left as it was.
    pub fn new(objects: &mut Vec<usize>, keys: &Vec<[u64; 3]>, start: usize, end: usize) -> (r: BVHnode)
        requires
            start < end <= old(objects).len(),
            keyed(old(objects)@, keys@.len(), start as int, end as int),
        ensures
            permuted_within(old(objects)@, final(objects)@, start as int, end as int),
            r.objects() == old(objects)@.subrange(start as int, end as int).to_set(),
            node_shape(r, old(objects)@, final(objects)@, keys@, start as int, end as int),
    {
        let mut rng = fresh_rng();
        build(objects, keys, start, end, &mut rng)
    }
}

/// Splits on a random axis: one primitive fills both children, two are
/// ordered by sort key, more are sorted and split at the middle.
fn build(
    objects: &mut Vec<usize>,
    keys: &Vec<[u64; 3]>,
    start: usize,
    end: usize,
    rng: &mut StdRng,
) -> (r: BVHnode)
    requires
        start < end <= old(objects).len(),
        keyed(old(objects)@, keys@.len(), start as int, end as int),
    ensures
        permuted_within(old(objects)@, final(objects)@, start as int, end as int),
        r.objects() == old(objects)@.subrange(start as int, end as int).to_set(),
        node_shape(r, old(objects)@, final(objects)@, keys@, start as int, end as int),
    decreases end - start,
{
    let ghost orig = objects@;
    let axis = below(rng, 3);
    let span = end - start;
    if span == 1 {
        let o = objects[start];
        proof {
            lemma_permuted_refl(orig, start as int, end as int);
            assert(orig.subrange(start as int, end as int) =~= seq![o]);
            assert(seq![o].to_set() =~= set![o]) by {
                assert(seq![o][0] == o);
            }
        }
        BVHnode { left: BvhChild::Object(o), right: BvhChild::Object(o), axis }
    } else if span == 2 {
        let a = objects[start];
        let b = objects[start + 1];
        proof {
            lemma_permuted_refl(orig, start as int, end as int);
            assert(orig.subrange(start as int, end as int) =~= seq![a, b]);
            assert(seq![a, b].to_set() =~= set![a, b]) by {
                assert(seq![a, b][0] == a);
                assert(seq![a, b][1] == b);
            }
        }
        if keys[a][axis] < keys[b][axis] {
            BVHnode { left: BvhChild::Object(a), right: BvhChild::Object(b), axis }
        } else {
            BVHnode { left: BvhChild::Object(b), right: BvhChild::Object(a), axis }
        }
    } else {
        sort_range(objects, keys, axis, start, end);
        let ghost sorted = objects@;
        let mid = start + span / 2;
        proof {
            lemma_permuted_same_set(orig, sorted, start as int, end as int);
        }
        let left = build(objects, keys, start, mid, rng);
        let ghost after_left = objects@;
        proof {
            lemma_permuted_same_set(sorted, after_left, start as int, mid as int);
            assert(forall|k: int| mid <= k < end ==> after_left[k] == sorted[k]);
        }
        let right = build(objects, keys, mid, end, rng);
        proof {
            lemma_permuted_join(sorted, after_left, objects@, start as int, mid as int, end as int);
            lemma_permuted_trans(orig, sorted, objects@, start as int, end as int);
            lemma_split_set(sorted, start as int, mid as int, end as int);
            assert(after_left.subrange(mid as int, end as int) =~= sorted.subrange(
                mid as int,
                end as int,
            ));
        }
        proof {
            let fin = objects@;
            lemma_permuted_origin(sorted, after_left, start as int, mid as int);
            lemma_permuted_origin(after_left, fin, mid as int, end as int);
            lemma_permuted_same_set(after_left, fin, mid as int, end as int);
            assert forall|x: int, y: int| start <= x < mid <= y < end implies key_at(
                fin,
                keys@,
                axis as int,
                x,
            ) <= key_at(fin, keys@, axis as int, y) by {
                assert(fin[x] == after_left[x]);
                assert(occurs_in(sorted, start as int, mid as int, after_left[x]));
                let qx = choose|q: int| start <= q < mid && sorted[q] == after_left[x];
                assert(occurs_in(after_left, mid as int, end as int, fin[y]));
                let qy = choose|q: int| mid <= q < end && after_left[q] == fin[y];
                assert(after_left[qy] == sorted[qy]);
                assert(key_at(sorted, keys@, axis as int, qx) <= key_at(sorted, keys@, axis as int, qy));
            }
            assert(fin.subrange(start as int, mid as int) =~= after_left.subrange(start as int, mid as int));
        }
        BVHnode {
            left: BvhChild::Node(Box::new(left)),
            right: BvhChild::Node(Box::new(right)),
            axis,
        }
    }
}

} // verus!
