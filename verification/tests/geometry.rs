use open_conv::geometry::{div_ceil, is_valid_partition, max_parts_for, rendered_geometry};

#[test]
fn partitions_are_powers_of_two_from_32() {
    for p in [32usize, 64, 128, 256, 4096, 1 << 20] {
        assert!(is_valid_partition(p), "{p}");
    }
    for p in [0usize, 1, 16, 31, 48, 100, 255, 257, usize::MAX] {
        assert!(!is_valid_partition(p), "{p}");
    }
}

#[test]
fn ceiling_division() {
    assert_eq!(div_ceil(0, 5), 0);
    assert_eq!(div_ceil(10, 5), 2);
    assert_eq!(div_ceil(11, 5), 3);
    assert_eq!(div_ceil(usize::MAX, 1), usize::MAX);
    assert_eq!(div_ceil(usize::MAX, 2), usize::MAX / 2 + 1);
}

#[test]
fn capacity_covers_the_longest_ir() {
    // 8 s at 48 kHz in partitions of 256.
    assert_eq!(max_parts_for(384_000, 256), 1500);
    assert_eq!(max_parts_for(384_001, 256), 1501);
    assert_eq!(max_parts_for(0, 256), 2);
    assert_eq!(max_parts_for(100, 256), 2);
}

#[test]
fn rendered_length_is_clamped() {
    assert_eq!(rendered_geometry(0, 64, 75), (1, 1));
    assert_eq!(rendered_geometry(700, 64, 75), (700, 11));
    assert_eq!(rendered_geometry(64, 64, 75), (64, 1));
    assert_eq!(rendered_geometry(1_000_000, 64, 75), (4800, 75));
}
