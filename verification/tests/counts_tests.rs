//! Pass-count and cascade-count derivations on concrete viewports.

use radiance_cascades::counts::{ceil_log2, derive_pass_count, derive_cascade_count, pow2_usize};

#[test]
fn ceil_log2_values() {
    assert_eq!(ceil_log2(1), 0);
    assert_eq!(ceil_log2(2), 1);
    assert_eq!(ceil_log2(3), 2);
    assert_eq!(ceil_log2(4), 2);
    assert_eq!(ceil_log2(5), 3);
    assert_eq!(ceil_log2(100), 7);
    assert_eq!(ceil_log2(256), 8);
    assert_eq!(ceil_log2(257), 9);
    assert_eq!(ceil_log2(800), 10);
    assert_eq!(ceil_log2(32768), 15);
}

#[test]
fn pass_count_uses_larger_extent() {
    assert_eq!(derive_pass_count(1, 1), 0);
    assert_eq!(derive_pass_count(1, 5), 3);
    assert_eq!(derive_pass_count(5, 1), 3);
    assert_eq!(derive_pass_count(256, 256), 8);
    assert_eq!(derive_pass_count(800, 600), 10);
    assert_eq!(derive_pass_count(100, 100), 7);
}

#[test]
fn pass_count_zero_only_for_one_pixel_extents() {
    assert_eq!(derive_pass_count(1, 1), 0);
    assert_ne!(derive_pass_count(2, 1), 0);
    assert_ne!(derive_pass_count(1, 2), 0);
    assert_ne!(derive_pass_count(2, 2), 0);
}

#[test]
fn cascade_count_values() {
    // ceil(log_4(sqrt(2))) + 1 = 1 + 1
    assert_eq!(derive_cascade_count(4, 1, 1), 2);
    // diagonal of 256x256 is ~362.0; ceil(log_4) = 5; plus 1
    assert_eq!(derive_cascade_count(4, 256, 256), 6);
    // diagonal of 100x100 is ~141.4; ceil(log_4) = 4; plus 1
    assert_eq!(derive_cascade_count(4, 100, 100), 5);
    // diagonal of 800x600 is 1000; ceil(log_4) = 5; plus 1
    assert_eq!(derive_cascade_count(4, 800, 600), 6);
    // a base below 2 is clamped to 2: diagonal ~1.41, ceil(log_2) = 1; plus 1
    assert_eq!(derive_cascade_count(1, 1, 1), 2);
    // base 2, diagonal 1000: ceil(log_2) = 10; plus 1
    assert_eq!(derive_cascade_count(2, 800, 600), 11);
}

#[test]
fn pow2_usize_values() {
    assert_eq!(pow2_usize(0), 1);
    assert_eq!(pow2_usize(1), 2);
    assert_eq!(pow2_usize(10), 1024);
    assert_eq!(pow2_usize(30), 1 << 30);
}
