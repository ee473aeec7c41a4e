//! The bounding-volume hierarchy's tree structure: an arena of nodes whose
//! leaves carry contiguous ranges of the reordered shape array.
//!
//! Everything geometric about the hierarchy (node bounds, the slab test, the
//! shrink-and-prune traversal) is floating point and lives with the renderer
//! binary. What is proved here is the structural half: construction always
//! terminates, reorders the shapes by a permutation, and yields a tree whose
//! leaf ranges tile the shape array exactly — every shape sits in exactly one
//! leaf, so a traversal that visits every leaf considers every shape once.

use vstd::prelude::*;

use crate::utils::lemma_swap_in_subrange;
use crate::utils::vec_swap;

verus! {

/// One node of the hierarchy. A node is a leaf exactly when `count > 0`: it
/// then covers the shapes at positions `[offset, offset + count)` of the
/// reordered shape array. Otherwise it is an interior node and `left` and
/// `right` are the arena positions of its children.
#[derive(Copy, Clone, Debug)]
pub struct BVHNode {
    pub left: usize,
    pub right: usize,
    pub offset: usize,
    pub count: usize,
}

impl BVHNode {
    /// A leaf covering `[offset, offset + count)` of the shape array.
    pub fn create_leaf(offset: usize, count: usize) -> (n: BVHNode)
        requires
            count >= 1,
        ensures
            n.offset == offset,
            n.count == count,
            n.count > 0,
    {
        BVHNode { left: 0, right: 0, offset, count }
    }

    /// An interior node whose children sit at arena positions `left` and
    /// `right`.
    pub fn create_parent(left: usize, right: usize) -> (n: BVHNode)
        ensures
            n.left == left,
            n.right == right,
            n.count == 0,
    {
        BVHNode { left, right, offset: 0, count: 0 }
    }
}

/// The hierarchy: an arena of nodes and the position of the root. Children
/// always sit at smaller arena positions than their parent, so one forward
/// pass over `nodes` visits every child before its parent.
pub struct Bvh {
    pub nodes: Vec<BVHNode>,
    pub root: usize,
}

/// Well-formedness of the subtree rooted at arena position `i`, covering the
/// shape range `[start, end)`: a leaf covers exactly its range; an interior
/// node splits its range at the midpoint index and owns two well-formed
/// children at smaller arena positions.
pub open spec fn node_wf(nodes: Seq<BVHNode>, i: int, start: int, end: int) -> bool
    decreases i,
{
    &&& 0 <= i < nodes.len()
    &&& start < end
    &&& if nodes[i].count > 0 {
        nodes[i].offset == start && nodes[i].offset + nodes[i].count == end
    } else {
        &&& end - start >= 2
        &&& nodes[i].left < i
        &&& nodes[i].right < i
        &&& node_wf(nodes, nodes[i].left as int, start, start + (end - start) / 2)
        &&& node_wf(nodes, nodes[i].right as int, start + (end - start) / 2, end)
    }
}

/// The leaf ranges of the subtree rooted at `i`, left to right.
pub open spec fn leaf_ranges(nodes: Seq<BVHNode>, i: int) -> Seq<(int, int)>
    decreases i,
{
    if i < 0 || i >= nodes.len() {
        Seq::empty()
    } else if nodes[i].count > 0 {
        seq![(nodes[i].offset as int, nodes[i].offset + nodes[i].count)]
    } else if nodes[i].left < i && nodes[i].right < i {
        leaf_ranges(nodes, nodes[i].left as int) + leaf_ranges(nodes, nodes[i].right as int)
    } else {
        Seq::empty()
    }
}

/// How many of the half-open ranges contain `k`.
pub open spec fn cover_count(ranges: Seq<(int, int)>, k: int) -> int
    decreases ranges.len(),
{
    if ranges.len() == 0 {
        0
    } else {
        (if ranges[0].0 <= k < ranges[0].1 {
            1int
        } else {
            0int
        }) + cover_count(ranges.drop_first(), k)
    }
}

impl Bvh {
    /// Structural well-formedness over a shape array of length `n_shapes`:
    /// an empty scene has an empty arena; otherwise the root subtree covers
    /// exactly `[0, n_shapes)`.
    pub open spec fn wf(self, n_shapes: int) -> bool {
        if n_shapes == 0 {
            self.nodes@.len() == 0
        } else {
            self.root == self.nodes@.len() - 1 && node_wf(
                self.nodes@,
                self.root as int,
                0,
                n_shapes,
            )
        }
    }

    /// The leaf ranges of the whole hierarchy, left to right.
    pub open spec fn leaves(self) -> Seq<(int, int)> {
        if self.nodes@.len() == 0 {
            Seq::empty()
        } else {
            leaf_ranges(self.nodes@, self.root as int)
        }
    }
}

proof fn lemma_cover_count_concat(a: Seq<(int, int)>, b: Seq<(int, int)>, k: int)
    ensures
        cover_count(a + b, k) == cover_count(a, k) + cover_count(b, k),
    decreases a.len(),
{
    if a.len() == 0 {
        assert(a + b =~= b);
    } else {
        assert((a + b).drop_first() =~= a.drop_first() + b);
        lemma_cover_count_concat(a.drop_first(), b, k);
    }
}

/// In a well-formed subtree over `[start, end)`, a shape position is covered
/// by exactly one leaf if it lies in the range and by none otherwise.
proof fn lemma_node_cover(nodes: Seq<BVHNode>, i: int, start: int, end: int, k: int)
    requires
        node_wf(nodes, i, start, end),
    ensures
        cover_count(leaf_ranges(nodes, i), k) == if start <= k < end {
            1int
        } else {
            0int
        },
    decreases i,
{
    if nodes[i].count > 0 {
        let r = leaf_ranges(nodes, i);
        assert(r =~= seq![(nodes[i].offset as int, nodes[i].offset + nodes[i].count)]);
        assert(r.drop_first() =~= Seq::<(int, int)>::empty());
        assert(cover_count(r.drop_first(), k) == 0);
        assert(cover_count(r, k) == (if r[0].0 <= k < r[0].1 {
            1int
        } else {
            0int
        }) + cover_count(r.drop_first(), k));
    } else {
        let mid = start + (end - start) / 2;
        lemma_node_cover(nodes, nodes[i].left as int, start, mid, k);
        lemma_node_cover(nodes, nodes[i].right as int, mid, end, k);
        lemma_cover_count_concat(
            leaf_ranges(nodes, nodes[i].left as int),
            leaf_ranges(nodes, nodes[i].right as int),
            k,
        );
    }
}

/// The leaves of a well-formed hierarchy tile the shape array: every shape
/// position lies in exactly one leaf range, so a traversal that tests every
/// leaf tests every shape exactly once — the structural half of the claim
/// that the hierarchy and a brute-force scan see the same shapes.
pub proof fn lemma_bvh_leaves_tile_shapes(t: Bvh, n_shapes: int, k: int)
    requires
        t.wf(n_shapes),
        0 <= k < n_shapes,
    ensures
        cover_count(t.leaves(), k) == 1,
{
    lemma_node_cover(t.nodes@, t.root as int, 0, n_shapes, k);
}

/// A shape position outside the array is in no leaf of a well-formed
/// hierarchy.
pub proof fn lemma_bvh_leaves_stay_inside(t: Bvh, n_shapes: int, k: int)
    requires
        t.wf(n_shapes),
        !(0 <= k < n_shapes),
    ensures
        cover_count(t.leaves(), k) == 0,
{
    if n_shapes != 0 {
        lemma_node_cover(t.nodes@, t.root as int, 0, n_shapes, k);
    }
}

/// Well-formedness of a subtree only reads the arena up to the subtree's
/// root, so appending nodes to the arena preserves it.
proof fn lemma_node_wf_extend(nodes1: Seq<BVHNode>, nodes2: Seq<BVHNode>, i: int, start: int, end: int)
    requires
        node_wf(nodes1, i, start, end),
        nodes1.len() <= nodes2.len(),
        nodes2.subrange(0, nodes1.len() as int) == nodes1,
    ensures
        node_wf(nodes2, i, start, end),
    decreases i,
{
    assert(nodes2[i] == nodes2.subrange(0, nodes1.len() as int)[i]);
    if nodes1[i].count == 0 {
        let mid = start + (end - start) / 2;
        lemma_node_wf_extend(nodes1, nodes2, nodes1[i].left as int, start, mid);
        lemma_node_wf_extend(nodes1, nodes2, nodes1[i].right as int, mid, end);
    }
}

/// `a` and `b` agree outside `[mid, end)` and hold the same multiset inside
/// `[mid, end)`; then they hold the same multiset on all of `[start, end)`,
/// and likewise when the changed half is `[start, mid)`.
proof fn lemma_split_multiset<S>(a: Seq<S>, b: Seq<S>, start: int, mid: int, end: int)
    requires
        a.len() == b.len(),
        0 <= start <= mid <= end <= a.len(),
        b.subrange(start, mid).to_multiset() == a.subrange(start, mid).to_multiset(),
        b.subrange(mid, end).to_multiset() == a.subrange(mid, end).to_multiset(),
    ensures
        b.subrange(start, end).to_multiset() == a.subrange(start, end).to_multiset(),
{
    assert(a.subrange(start, end) =~= a.subrange(start, mid) + a.subrange(mid, end));
    assert(b.subrange(start, end) =~= b.subrange(start, mid) + b.subrange(mid, end));
    vstd::seq_lib::lemma_multiset_commutative(a.subrange(start, mid), a.subrange(mid, end));
    vstd::seq_lib::lemma_multiset_commutative(b.subrange(start, mid), b.subrange(mid, end));
}

/// Reorders `data[start..end)` so that elements whose flag is set tend to
/// come first; the flags are positional (`flags[j]` belongs to
/// `data[start + j]` as the range stood at the call). Only the order inside
/// the range changes.
fn partition_by_flags<S>(data: &mut Vec<S>, start: usize, end: usize, flags: &Vec<bool>)
    requires
        start <= end <= old(data).len(),
        flags@.len() == end - start,
    ensures
        final(data)@.len() == old(data)@.len(),
        forall|k: int|
            0 <= k < old(data)@.len() && !(start <= k < end) ==> final(data)@[k] == old(
                data,
            )@[k],
        final(data)@.subrange(start as int, end as int).to_multiset() == old(data)@.subrange(
            start as int,
            end as int,
        ).to_multiset(),
{
    let ghost orig = data@;
    let mut fl: Vec<bool> = Vec::new();
    let mut i: usize = 0;
    while i < flags.len()
        invariant
            fl@.len() == i <= flags@.len(),
        decreases flags@.len() - i,
    {
        fl.push(flags[i]);
        i = i + 1;
    }
    let mut l = start;
    let mut r = end;
    while l < r
        invariant
            orig == old(data)@,
            start <= l <= r <= end <= data@.len(),
            data@.len() == orig.len(),
            fl@.len() == end - start,
            forall|k: int| 0 <= k < orig.len() && !(start <= k < end) ==> data@[k] == orig[k],
            data@.subrange(start as int, end as int).to_multiset() == orig.subrange(
                start as int,
                end as int,
            ).to_multiset(),
        decreases r - l,
    {
        if fl[l - start] {
            l = l + 1;
        } else {
            proof {
                lemma_swap_in_subrange(data@, start as int, end as int, l as int, (r - 1) as int);
            }
            vec_swap(data, l, r - 1);
            vec_swap(&mut fl, l - start, r - 1 - start);
            r = r - 1;
        }
    }
}

impl BVHNode {
    /// Builds the hierarchy over the whole shape array, reordering it in
    /// place. `classify` is the geometric oracle supplied by the renderer:
    /// for a range of at least two shapes it returns `None` when every
    /// centroid coincides on the widest axis (the range then becomes a
    /// single leaf, rather than splitting forever), and otherwise one flag
    /// per shape of the range saying on which side of the midpoint plane its
    /// centroid lies. The tree itself never depends on the oracle being
    /// sensible: for every oracle the result is well-formed and the shapes
    /// are a permutation of the input.
    pub fn construct<S, F: Fn(&Vec<S>, usize, usize) -> Option<Vec<bool>>>(
        shapes: &mut Vec<S>,
        classify: &F,
    ) -> (t: Bvh)
        requires
            forall|v: &Vec<S>, s: usize, e: usize| call_requires(*classify, (v, s, e)),
        ensures
            final(shapes)@.len() == old(shapes)@.len(),
            final(shapes)@.to_multiset() == old(shapes)@.to_multiset(),
            t.wf(old(shapes)@.len() as int),
    {
        let mut nodes: Vec<BVHNode> = Vec::new();
        if shapes.len() == 0 {
            return Bvh { nodes, root: 0 };
        }
        let len = shapes.len();
        let root = Self::construct_recurse(shapes, &mut nodes, 0, len, classify);
        proof {
            assert(shapes@.subrange(0, shapes@.len() as int) =~= shapes@);
            assert(old(shapes)@.subrange(0, old(shapes)@.len() as int) =~= old(shapes)@);
        }
        Bvh { nodes, root }
    }

    /// Builds the subtree over `shapes[start..end)`, appending its nodes to
    /// the arena and returning the arena position of its root (always the
    /// last node appended, so children precede parents).
    fn construct_recurse<S, F: Fn(&Vec<S>, usize, usize) -> Option<Vec<bool>>>(
        shapes: &mut Vec<S>,
        nodes: &mut Vec<BVHNode>,
        start: usize,
        end: usize,
        classify: &F,
    ) -> (root: usize)
        requires
            start < end <= old(shapes).len(),
            forall|v: &Vec<S>, s: usize, e: usize| call_requires(*classify, (v, s, e)),
        ensures
            final(shapes)@.len() == old(shapes)@.len(),
            forall|k: int|
                0 <= k < old(shapes)@.len() && !(start <= k < end) ==> final(shapes)@[k] == old(
                    shapes,
                )@[k],
            final(shapes)@.subrange(start as int, end as int).to_multiset() == old(
                shapes,
            )@.subrange(start as int, end as int).to_multiset(),
            final(nodes)@.len() > old(nodes)@.len(),
            final(nodes)@.subrange(0, old(nodes)@.len() as int) == old(nodes)@,
            root == final(nodes)@.len() - 1,
            node_wf(final(nodes)@, root as int, start as int, end as int),
        decreases end - start,
    {
        let count = end - start;
        if count == 1 {
            nodes.push(BVHNode::create_leaf(start, count));
            proof {
                assert(nodes@.subrange(0, old(nodes)@.len() as int) =~= old(nodes)@);
            }
            return nodes.len() - 1;
        }
        let decision = classify(&*shapes, start, end);
        match decision {
            None => {
                nodes.push(BVHNode::create_leaf(start, count));
                proof {
                    assert(nodes@.subrange(0, old(nodes)@.len() as int) =~= old(nodes)@);
                }
                nodes.len() - 1
            },
            Some(flags) => {
                if flags.len() == count {
                    partition_by_flags(shapes, start, end, &flags);
                }
                let ghost shapes1 = shapes@;
                let mid = start + count / 2;
                let left = Self::construct_recurse(shapes, nodes, start, mid, classify);
                let ghost shapes2 = shapes@;
                let ghost nodes2 = nodes@;
                let right = Self::construct_recurse(shapes, nodes, mid, end, classify);
                let ghost nodes3 = nodes@;
                nodes.push(BVHNode::create_parent(left, right));
                proof {
                    lemma_node_wf_extend(nodes2, nodes3, left as int, start as int, mid as int);
                    assert(nodes3.subrange(0, nodes3.len() as int) =~= nodes3);
                    assert(nodes@.subrange(0, nodes3.len() as int) =~= nodes3);
                    lemma_node_wf_extend(nodes3, nodes@, left as int, start as int, mid as int);
                    lemma_node_wf_extend(nodes3, nodes@, right as int, mid as int, end as int);
                    assert(nodes@.subrange(0, old(nodes)@.len() as int) =~= old(nodes)@);
                    // the shape range keeps its multiset across the three
                    // reorderings
                    assert(shapes2.subrange(mid as int, end as int) =~= shapes1.subrange(
                        mid as int,
                        end as int,
                    ));
                    lemma_split_multiset(shapes1, shapes2, start as int, mid as int, end as int);
                    assert(shapes@.subrange(start as int, mid as int) =~= shapes2.subrange(
                        start as int,
                        mid as int,
                    ));
                    lemma_split_multiset(shapes2, shapes@, start as int, mid as int, end as int);
                }
                nodes.len() - 1
            },
        }
    }
}

} // verus!
