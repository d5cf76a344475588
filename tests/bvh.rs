use raytrace::bvh::{BVHnode, BvhChild};
use std::collections::BTreeSet;

fn leaves(c: &BvhChild, out: &mut Vec<usize>) {
    match c {
        BvhChild::Object(o) => out.push(*o),
        BvhChild::Node(n) => {
            leaves(&n.left, out);
            leaves(&n.right, out);
        }
    }
}

fn node_leaves(n: &BVHnode) -> Vec<usize> {
    let mut out = Vec::new();
    leaves(&n.left, &mut out);
    leaves(&n.right, &mut out);
    out
}

fn scene_keys(n: usize) -> Vec<[u64; 3]> {
    // a fixed scatter of keys, different along each axis
    (0..n as u64).map(|k| [(k * 37) % 101, (k * 53) % 97, (k * 71) % 89]).collect()
}

#[test]
fn single_object_fills_both_children() {
    let keys = scene_keys(1);
    let mut objects = vec![0usize];
    let node = BVHnode::new(&mut objects, &keys, 0, 1);
    assert!(matches!(node.left, BvhChild::Object(0)));
    assert!(matches!(node.right, BvhChild::Object(0)));
}

#[test]
fn two_objects_ordered_by_key() {
    // equal keys on every axis, so the random axis does not matter
    let keys = vec![[9u64, 9, 9], [4, 4, 4]];
    let mut objects = vec![0usize, 1];
    let node = BVHnode::new(&mut objects, &keys, 0, 2);
    assert!(matches!(node.left, BvhChild::Object(1)));
    assert!(matches!(node.right, BvhChild::Object(0)));
}

#[test]
fn every_object_lands_in_the_tree() {
    for &n in &[1usize, 2, 3, 50] {
        let keys = scene_keys(n);
        let mut objects: Vec<usize> = (0..n).collect();
        let node = BVHnode::new(&mut objects, &keys, 0, n);
        let got: BTreeSet<usize> = node_leaves(&node).into_iter().collect();
        let want: BTreeSet<usize> = (0..n).collect();
        assert_eq!(got, want);
        let mut sorted = objects.clone();
        sorted.sort();
        assert_eq!(sorted, (0..n).collect::<Vec<usize>>());
    }
}

fn child_leaves(c: &BvhChild) -> Vec<usize> {
    let mut out = Vec::new();
    leaves(c, &mut out);
    out
}

fn check_split(n: &BVHnode, keys: &[[u64; 3]]) {
    assert!(n.axis < 3);
    let left = child_leaves(&n.left);
    let right = child_leaves(&n.right);
    if let (BvhChild::Node(l), BvhChild::Node(r)) = (&n.left, &n.right) {
        let max_left = left.iter().map(|&o| keys[o][n.axis]).max().unwrap();
        let min_right = right.iter().map(|&o| keys[o][n.axis]).min().unwrap();
        assert!(max_left <= min_right);
        check_split(l, keys);
        check_split(r, keys);
    }
}

#[test]
fn halves_split_by_key_along_axis() {
    for &n in &[3usize, 4, 7, 50] {
        let keys = scene_keys(n);
        let mut objects: Vec<usize> = (0..n).collect();
        let node = BVHnode::new(&mut objects, &keys, 0, n);
        let got: BTreeSet<usize> = node_leaves(&node).into_iter().collect();
        assert_eq!(got.len(), n);
        check_split(&node, &keys);
    }
}

#[test]
fn two_objects_with_equal_keys_put_the_second_left() {
    let keys = vec![[3u64, 3, 3], [3, 3, 3]];
    let mut objects = vec![0usize, 1];
    let node = BVHnode::new(&mut objects, &keys, 0, 2);
    assert!(matches!(node.left, BvhChild::Object(1)));
    assert!(matches!(node.right, BvhChild::Object(0)));
}

#[test]
fn subrange_build_leaves_the_rest() {
    let keys = scene_keys(10);
    let mut objects: Vec<usize> = (0..10).rev().collect();
    let node = BVHnode::new(&mut objects, &keys, 3, 8);
    let got: BTreeSet<usize> = node_leaves(&node).into_iter().collect();
    let want: BTreeSet<usize> = [6usize, 5, 4, 3, 2].into_iter().collect();
    assert_eq!(got, want);
    assert_eq!(&objects[..3], &[9, 8, 7]);
    assert_eq!(&objects[8..], &[1, 0]);
}
