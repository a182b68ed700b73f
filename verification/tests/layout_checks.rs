//! Exercises the layout type and its power-of-two check.

use libc_alloc::{is_power_of_two, Layout};

#[test]
fn power_of_two_check() {
    assert!(!is_power_of_two(0));
    assert!(is_power_of_two(1));
    assert!(is_power_of_two(2));
    assert!(is_power_of_two(4));
    assert!(!is_power_of_two(6));
    assert!(!is_power_of_two(12));
    assert!(is_power_of_two(1024));
    assert!(is_power_of_two(1 << 40));
    assert!(!is_power_of_two((1 << 40) + 2));
}

#[test]
fn layout_new_accepts_only_power_of_two_alignments() {
    let l = Layout::new(24, 8).unwrap();
    assert_eq!(l.size, 24);
    assert_eq!(l.align, 8);
    assert!(Layout::new(24, 1).is_some());
    assert!(Layout::new(0, 16).is_some());
    assert!(Layout::new(24, 0).is_none());
    assert!(Layout::new(24, 3).is_none());
    assert!(Layout::new(24, 24).is_none());
}
