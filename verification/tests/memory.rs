use cdm_linker::mem::{c_string_length, compare_bytes, copy_backward, copy_forward, set_bytes};

#[test]
fn copy_forward_with_overlap_toward_lower_addresses() {
    let mut mem = vec![1, 2, 3, 4, 5, 6];
    copy_forward(&mut mem, 0, 2, 4);
    assert_eq!(mem, vec![3, 4, 5, 6, 5, 6]);
}

#[test]
fn copy_backward_with_overlap_toward_higher_addresses() {
    let mut mem = vec![1, 2, 3, 4, 5, 6];
    copy_backward(&mut mem, 2, 0, 4);
    assert_eq!(mem, vec![1, 2, 1, 2, 3, 4]);
}

#[test]
fn copies_of_disjoint_regions_agree_and_compare_equal() {
    let start = vec![9u8, 8, 7, 0, 0, 0, 1];
    let mut a = start.clone();
    let mut b = start.clone();
    copy_forward(&mut a, 3, 0, 3);
    copy_backward(&mut b, 3, 0, 3);
    assert_eq!(a, b);
    assert_eq!(a, vec![9, 8, 7, 9, 8, 7, 1]);
    assert_eq!(compare_bytes(&a, 0, 3, 3), 0);
    let mut c = start.clone();
    copy_forward(&mut c, 1, 1, 0);
    assert_eq!(c, start);
}

#[test]
fn set_bytes_fills_region() {
    let mut mem = vec![0u8; 6];
    set_bytes(&mut mem, 1, 0xaa, 3);
    assert_eq!(mem, vec![0, 0xaa, 0xaa, 0xaa, 0, 0]);
    set_bytes(&mut mem, 5, 1, 0);
    assert_eq!(mem, vec![0, 0xaa, 0xaa, 0xaa, 0, 0]);
}

#[test]
fn compare_bytes_gives_first_difference() {
    let mem = vec![1u8, 2, 3, 1, 2, 9, 0x80, 0x01];
    assert_eq!(compare_bytes(&mem, 0, 3, 2), 0);
    assert_eq!(compare_bytes(&mem, 0, 3, 3), 3 - 9);
    assert_eq!(compare_bytes(&mem, 3, 0, 3), 9 - 3);
    assert_eq!(compare_bytes(&mem, 6, 7, 1), 0x80 - 0x01);
    assert_eq!(compare_bytes(&mem, 0, 5, 0), 0);
}

#[test]
fn c_string_length_counts_to_the_zero() {
    let mem = b"hello\0world\0".to_vec();
    assert_eq!(c_string_length(&mem, 0), 5);
    assert_eq!(c_string_length(&mem, 6), 5);
    assert_eq!(c_string_length(&mem, 5), 0);
    assert_eq!(c_string_length(&mem, 8), 3);
}

#[test]
fn copy_forward_over_a_higher_overlapping_destination_repeats() {
    let mut mem = vec![1, 2, 3, 4, 5, 6];
    copy_forward(&mut mem, 2, 0, 4);
    assert_eq!(mem, vec![1, 2, 1, 2, 1, 2]);
}

#[test]
fn copy_backward_over_a_lower_overlapping_destination_repeats() {
    let mut mem = vec![1, 2, 3, 4, 5, 6];
    copy_backward(&mut mem, 0, 2, 4);
    assert_eq!(mem, vec![5, 6, 5, 6, 5, 6]);
}

#[test]
fn empty_operations_touch_nothing_wherever_they_point() {
    let start = vec![1u8, 2, 3];
    let mut mem = start.clone();
    copy_forward(&mut mem, 100, usize::MAX, 0);
    copy_backward(&mut mem, usize::MAX, 50, 0);
    set_bytes(&mut mem, 1000, 7, 0);
    assert_eq!(mem, start);
    assert_eq!(compare_bytes(&mem, usize::MAX, 999, 0), 0);
}
