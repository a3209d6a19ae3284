use kairos_ecs::remote_allocator::{capacity_of_chunk, index_info, FreeCountState, DISABLING_BIT};

#[test]
fn free_count_zero() {
    let s = FreeCountState::new_zero_len();
    assert_eq!(s.length(), 0);
    assert!(!s.is_disabled());
}

#[test]
fn free_count_with_length_and_pop() {
    let s = FreeCountState::new_zero_len().with_length(10);
    assert_eq!(s.length(), 10);
    let p = s.pop(3);
    assert_eq!(p.length(), 7);
    assert_ne!(p, s.with_length(7));
    // popping more than there is reads as an empty list
    let q = p.pop(20);
    assert_eq!(q.length(), 0);
    assert_eq!(FreeCountState::encode_pop(5), 5 + (1 << 34));
}

#[test]
fn free_count_disabled_bit_is_kept() {
    let s = FreeCountState(FreeCountState::new_zero_len().0 | DISABLING_BIT);
    assert!(s.is_disabled());
    let t = s.with_length(4);
    assert!(t.is_disabled());
    assert_eq!(t.length(), 4);
    assert!(t.pop(1).is_disabled());
    assert_eq!(t.pop(1).length(), 3);
}

#[test]
fn free_count_generation_wraps() {
    let s = FreeCountState(FreeCountState::new_zero_len().0).with_length(1);
    let p = s.pop(0);
    // the generation moved from 0 to its largest value
    assert_eq!(p.0 >> 34, (1 << 30) - 1);
    assert_eq!(p.length(), 1);
}

#[test]
fn chunk_capacities() {
    assert_eq!(capacity_of_chunk(0), 512);
    assert_eq!(capacity_of_chunk(1), 512);
    assert_eq!(capacity_of_chunk(2), 1024);
    assert_eq!(capacity_of_chunk(23), 1 << 31);
}

#[test]
fn index_info_layout() {
    assert_eq!(index_info(0), (0, 0, 512));
    assert_eq!(index_info(511), (0, 511, 512));
    assert_eq!(index_info(512), (1, 0, 512));
    assert_eq!(index_info(1023), (1, 511, 512));
    assert_eq!(index_info(1024), (2, 0, 1024));
    assert_eq!(index_info(3000), (3, 952, 2048));
    assert_eq!(index_info(u32::MAX), (23, (1 << 31) - 1, 1 << 31));
}
