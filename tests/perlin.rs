use raytrace::perlin::{Perlin, POINT_COUNT};

#[test]
fn corners_index_the_gradient_table() {
    let p = Perlin::new();
    for i in -300i64..300 {
        assert!(p.corner(i, 2 * i, -i) < POINT_COUNT);
    }
    assert!(p.corner(i64::MIN, i64::MAX, 0) < POINT_COUNT);
}

#[test]
fn corners_repeat_every_period() {
    let p = Perlin::new();
    for i in -20i64..20 {
        assert_eq!(p.corner(i, 3, -7), p.corner(i + 256, 3 - 256, -7 + 512));
    }
}

#[test]
fn corner_hash_is_a_table_permutation() {
    // with j and k fixed, the hash is a bijection of 0..256 along i
    let p = Perlin::new();
    let mut seen = vec![false; POINT_COUNT];
    for i in 0..256i64 {
        seen[p.corner(i, 5, 11)] = true;
    }
    assert!(seen.iter().all(|&s| s));
}

#[test]
fn empty_tables() {
    let _p = Perlin::empty();
}
