use glowfield::geometry::{euclidean_dist, integer_sqrt, squared_dist};

#[test]
fn integer_sqrt_of_small_numbers() {
    let expected: [(u128, u64); 12] = [
        (0, 0),
        (1, 1),
        (2, 1),
        (3, 1),
        (4, 2),
        (8, 2),
        (9, 3),
        (15, 3),
        (16, 4),
        (24, 4),
        (25, 5),
        (26, 5),
    ];
    for (n, root) in expected {
        assert_eq!(integer_sqrt(n), root, "root of {}", n);
    }
}

#[test]
fn integer_sqrt_around_perfect_squares() {
    let mut r: u128 = 1;
    while r < 0x1_0000_0000_0000_0000 {
        assert_eq!(integer_sqrt(r * r) as u128, r);
        assert_eq!(integer_sqrt(r * r - 1) as u128, r - 1);
        assert_eq!(integer_sqrt(r * r + 1) as u128, r);
        r = r * 3 + 1;
    }
}

#[test]
fn integer_sqrt_of_the_largest_inputs() {
    assert_eq!(integer_sqrt(u128::MAX), u64::MAX);
    assert_eq!(integer_sqrt(0xffff_ffff_ffff_ffff), 0xffff_ffff);
    assert_eq!(integer_sqrt(0x1_0000_0000_0000_0000), 0x1_0000_0000);
    let top: u128 = 0xffff_ffff_ffff_ffff;
    assert_eq!(integer_sqrt(top * top), u64::MAX);
    assert_eq!(integer_sqrt(top * top - 1), u64::MAX - 1);
}

#[test]
fn integer_sqrt_agrees_with_the_floating_point_root() {
    for n in 0u32..200_000 {
        let expected = (n as f64).sqrt() as u64;
        assert_eq!(integer_sqrt(n as u128), expected, "root of {}", n);
    }
}

#[test]
fn squared_dist_of_a_three_four_five_triangle() {
    assert_eq!(squared_dist(&(0, 0), &(3, 4)), 25);
    assert_eq!(squared_dist(&(3, 4), &(0, 0)), 25);
    assert_eq!(squared_dist(&(10, 10), &(7, 14)), 25);
}

#[test]
fn squared_dist_of_a_position_to_itself_is_zero() {
    assert_eq!(squared_dist(&(17, 4), &(17, 4)), 0);
    assert_eq!(squared_dist(&(u32::MAX, u32::MAX), &(u32::MAX, u32::MAX)), 0);
}

#[test]
fn squared_dist_across_the_whole_grid() {
    let side: u128 = u32::MAX as u128;
    assert_eq!(squared_dist(&(0, 0), &(u32::MAX, u32::MAX)), 2 * side * side);
    assert_eq!(squared_dist(&(u32::MAX, 0), &(0, u32::MAX)), 2 * side * side);
    assert_eq!(squared_dist(&(0, 7), &(u32::MAX, 7)), side * side);
}

#[test]
fn euclidean_dist_of_a_three_four_five_triangle() {
    assert_eq!(euclidean_dist(&(0, 0), &(3, 4)), 5);
    assert_eq!(euclidean_dist(&(3, 4), &(0, 0)), 5);
}

#[test]
fn euclidean_dist_rounds_down() {
    assert_eq!(euclidean_dist(&(0, 0), &(1, 1)), 1);
    assert_eq!(euclidean_dist(&(0, 0), &(9, 9)), 12);
    assert_eq!(euclidean_dist(&(0, 0), &(2, 2)), 2);
    assert_eq!(euclidean_dist(&(5, 5), &(5, 5)), 0);
}

#[test]
fn euclidean_dist_across_the_whole_grid() {
    // The diagonal of the whole grid is (2^32 - 1) * sqrt(2), rounded down.
    assert_eq!(euclidean_dist(&(0, 0), &(u32::MAX, u32::MAX)), 6_074_000_998);
    assert_eq!(euclidean_dist(&(0, 0), &(u32::MAX, 0)), u32::MAX as u64);
}

#[test]
fn euclidean_dist_agrees_with_the_floating_point_distance() {
    for px in 0u32..40 {
        for py in 0u32..40 {
            let dx = px as f64 - 13.0;
            let dy = py as f64 - 29.0;
            let expected = (dx * dx + dy * dy).sqrt() as u64;
            assert_eq!(euclidean_dist(&(px, py), &(13, 29)), expected);
        }
    }
}
