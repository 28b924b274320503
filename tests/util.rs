use spark_mem::math_util::{round_to_next_multiple, round_to_previous_multiple};
use spark_mem::pointer_util::{align_bottom, align_top, is_aligned_to, is_pot};

#[test]
fn power_of_two() {
    assert!(!is_pot(0));
    assert!(is_pot(1));
    assert!(is_pot(2));
    assert!(!is_pot(3));
    assert!(is_pot(4096));
    assert!(!is_pot(4097));
    assert!(is_pot(1usize << 40));
}

#[test]
fn alignment_helpers() {
    assert!(is_aligned_to(32, 16));
    assert!(!is_aligned_to(36, 16));
    assert!(is_aligned_to(7, 0));
    assert_eq!(align_top(17, 16), 32);
    assert_eq!(align_top(32, 16), 32);
    assert_eq!(align_bottom(31, 16), 16);
    assert_eq!(align_bottom(32, 16), 32);
}

#[test]
fn rounding_to_multiples() {
    assert_eq!(round_to_next_multiple(10, 4), 12);
    assert_eq!(round_to_next_multiple(12, 4), 12);
    assert_eq!(round_to_next_multiple(0, 4096), 0);
    assert_eq!(round_to_previous_multiple(10, 4), 8);
    assert_eq!(round_to_previous_multiple(4095, 4096), 0);
}
