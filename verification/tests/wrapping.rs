use naia_core::wrapping_number::{sequence_greater_than, sequence_less_than, wrapping_diff};

#[test]
fn distance_without_wrap() {
    assert_eq!(wrapping_diff(10, 15), 5);
    assert_eq!(wrapping_diff(15, 10), -5);
    assert_eq!(wrapping_diff(7, 7), 0);
}

#[test]
fn distance_across_the_wrap() {
    assert_eq!(wrapping_diff(65535, 0), 1);
    assert_eq!(wrapping_diff(0, 65535), -1);
    assert_eq!(wrapping_diff(65530, 4), 10);
    assert_eq!(wrapping_diff(4, 65530), -10);
}

#[test]
fn distance_at_half_the_index_space() {
    assert_eq!(wrapping_diff(0, 32767), 32767);
    assert_eq!(wrapping_diff(0, 32768), -32768);
    assert_eq!(wrapping_diff(32768, 0), -32768);
    assert_eq!(wrapping_diff(0, 32769), -32767);
}

#[test]
fn newer_and_older() {
    assert!(sequence_greater_than(1, 0));
    assert!(sequence_greater_than(0, 65535));
    assert!(!sequence_greater_than(65535, 0));
    assert!(sequence_less_than(65535, 0));
    assert!(!sequence_less_than(5, 5));
    assert!(!sequence_greater_than(5, 5));
}
