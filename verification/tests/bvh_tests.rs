use pathtracer::bvh::BVHNode;
use pathtracer::bvh::Bvh;

/// The geometric oracle the tests drive construction with: the shapes are
/// plain integers standing in for centroid coordinates on one axis.
/// A range whose values all coincide is degenerate; otherwise each value is
/// flagged by which side of the midpoint it falls on.
fn classify_ints(data: &Vec<u64>, start: usize, end: usize) -> Option<Vec<bool>> {
    let slice = &data[start..end];
    let min = *slice.iter().min().unwrap();
    let max = *slice.iter().max().unwrap();
    if min == max {
        None
    } else {
        let mid = min + (max - min) / 2;
        Some(slice.iter().map(|v| *v < mid).collect())
    }
}

fn collect_leaves(nodes: &[BVHNode], i: usize, out: &mut Vec<(usize, usize)>) {
    let n = &nodes[i];
    if n.count > 0 {
        out.push((n.offset, n.offset + n.count));
    } else {
        collect_leaves(nodes, n.left, out);
        collect_leaves(nodes, n.right, out);
    }
}

fn leaf_ranges(t: &Bvh) -> Vec<(usize, usize)> {
    let mut out = Vec::new();
    if !t.nodes.is_empty() {
        collect_leaves(&t.nodes, t.root, &mut out);
    }
    out
}

fn assert_leaves_tile(t: &Bvh, n: usize) {
    let leaves = leaf_ranges(t);
    for k in 0..n {
        let covering = leaves.iter().filter(|(a, b)| *a <= k && k < *b).count();
        assert_eq!(covering, 1, "shape {} covered {} times", k, covering);
    }
    for (a, b) in &leaves {
        assert!(a < b && *b <= n);
    }
}

#[test]
fn construct_on_empty_scene_is_empty() {
    let mut shapes: Vec<u64> = Vec::new();
    let t = BVHNode::construct(&mut shapes, &classify_ints);
    assert!(t.nodes.is_empty());
    assert!(leaf_ranges(&t).is_empty());
}

#[test]
fn construct_single_shape_is_one_leaf() {
    let mut shapes: Vec<u64> = vec![42];
    let t = BVHNode::construct(&mut shapes, &classify_ints);
    assert_eq!(t.nodes.len(), 1);
    assert_eq!(t.root, 0);
    assert_eq!(leaf_ranges(&t), vec![(0, 1)]);
    assert_eq!(shapes, vec![42]);
}

#[test]
fn coincident_centroids_become_one_leaf() {
    let mut shapes: Vec<u64> = vec![7, 7, 7, 7];
    let t = BVHNode::construct(&mut shapes, &classify_ints);
    assert_eq!(t.nodes.len(), 1);
    assert_eq!(leaf_ranges(&t), vec![(0, 4)]);
    assert_eq!(shapes, vec![7, 7, 7, 7]);
}

#[test]
fn construct_reorders_by_a_permutation() {
    let mut shapes: Vec<u64> = vec![90, 10, 80, 20, 70, 30, 60, 40];
    let t = BVHNode::construct(&mut shapes, &classify_ints);
    let mut sorted = shapes.clone();
    sorted.sort();
    assert_eq!(sorted, vec![10, 20, 30, 40, 60, 70, 80, 90]);
    assert_leaves_tile(&t, 8);
}

#[test]
fn leaves_tile_the_shape_array() {
    for n in 1..20usize {
        let mut shapes: Vec<u64> = (0..n as u64).map(|k| (k * 37) % 19).collect();
        let t = BVHNode::construct(&mut shapes, &classify_ints);
        assert_leaves_tile(&t, n);
    }
}

#[test]
fn children_precede_parents_in_arena() {
    let mut shapes: Vec<u64> = (0..13u64).rev().collect();
    let t = BVHNode::construct(&mut shapes, &classify_ints);
    for (i, n) in t.nodes.iter().enumerate() {
        if n.count == 0 {
            assert!(n.left < i);
            assert!(n.right < i);
        }
    }
    assert_eq!(t.root, t.nodes.len() - 1);
}

#[test]
fn scanning_leaves_finds_the_same_closest_shape_as_brute_force() {
    // the structural half of hierarchy-equals-brute-force: walking every
    // leaf sees every shape, so the minimum over leaves is the minimum over
    // the array
    let mut shapes: Vec<u64> = vec![55, 3, 99, 42, 17, 8, 64, 23, 77, 31];
    let t = BVHNode::construct(&mut shapes, &classify_ints);
    let brute = *shapes.iter().min().unwrap();
    let mut via_leaves = u64::MAX;
    for (a, b) in leaf_ranges(&t) {
        for k in a..b {
            if shapes[k] < via_leaves {
                via_leaves = shapes[k];
            }
        }
    }
    assert_eq!(via_leaves, brute);
}

#[test]
fn oracle_with_wrong_flag_count_still_builds_a_sound_tree() {
    let bad = |_data: &Vec<u64>, _s: usize, _e: usize| -> Option<Vec<bool>> {
        Some(vec![true])
    };
    let mut shapes: Vec<u64> = vec![5, 1, 4, 2, 3];
    let t = BVHNode::construct(&mut shapes, &bad);
    assert_leaves_tile(&t, 5);
    assert_eq!(shapes, vec![5, 1, 4, 2, 3]);
}

#[test]
fn node_builders_set_their_fields() {
    let leaf = BVHNode::create_leaf(4, 3);
    assert_eq!(leaf.offset, 4);
    assert_eq!(leaf.count, 3);
    let parent = BVHNode::create_parent(0, 1);
    assert_eq!(parent.left, 0);
    assert_eq!(parent.right, 1);
    assert_eq!(parent.count, 0);
}
