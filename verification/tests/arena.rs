use memmap2::MmapMut;
use roma::arena::PageArena;
use roma::consts::HOMA_BPAGE_SIZE;
use roma::error::HomaError;
use roma::types::{homa_abort_args, homa_set_buf_args, HomaBuf};

#[test]
fn create_maps_the_pages_asked_for() {
    let arena = PageArena::create(4).unwrap();
    assert_eq!(arena.page_count(), 4);
    assert_eq!(arena.len(), 4 * HOMA_BPAGE_SIZE);
    assert_eq!(arena.bytes().len(), 4 * HOMA_BPAGE_SIZE);
}

#[test]
fn a_created_arena_holds_zeroes() {
    let arena = PageArena::create(2).unwrap();
    assert!(arena.bytes().iter().all(|byte| *byte == 0));
}

#[test]
fn create_of_no_pages_is_an_empty_arena() {
    let arena = PageArena::create(0).unwrap();
    assert_eq!(arena.page_count(), 0);
    assert_eq!(arena.len(), 0);
    assert_eq!(arena.bytes().len(), 0);
    assert!(!arena.contains_page(0));
}

#[test]
fn create_fails_where_the_length_overflows() {
    assert!(matches!(PageArena::create(usize::MAX), Err(HomaError::AllocationError)));
    assert!(matches!(
        PageArena::create(usize::MAX / HOMA_BPAGE_SIZE + 1),
        Err(HomaError::AllocationError)
    ));
}

#[test]
fn adopt_takes_a_mapping_of_the_right_length() {
    let mapping = MmapMut::map_anon(3 * HOMA_BPAGE_SIZE).unwrap();
    let arena = PageArena::adopt(mapping, 0x10000, 3).unwrap();
    assert_eq!(arena.base(), 0x10000);
    assert_eq!(arena.page_count(), 3);
    assert_eq!(arena.len(), 3 * HOMA_BPAGE_SIZE);
}

#[test]
fn adopt_refuses_a_mapping_of_another_length() {
    let mapping = MmapMut::map_anon(3 * HOMA_BPAGE_SIZE).unwrap();
    assert!(matches!(PageArena::adopt(mapping, 0x10000, 4), Err(HomaError::AllocationError)));
    let mapping = MmapMut::map_anon(HOMA_BPAGE_SIZE + 1).unwrap();
    assert!(matches!(PageArena::adopt(mapping, 0x10000, 1), Err(HomaError::AllocationError)));
}

#[test]
fn adopt_refuses_an_arena_that_runs_off_the_address_space() {
    let mapping = MmapMut::map_anon(2 * HOMA_BPAGE_SIZE).unwrap();
    let base = usize::MAX - 2 * HOMA_BPAGE_SIZE + 1;
    assert!(matches!(PageArena::adopt(mapping, base, 2), Err(HomaError::AllocationError)));
    let mapping = MmapMut::map_anon(2 * HOMA_BPAGE_SIZE).unwrap();
    assert!(PageArena::adopt(mapping, base - 1, 2).is_ok());
}

#[test]
fn bytes_shows_what_the_mapping_holds() {
    let mut mapping = MmapMut::map_anon(2 * HOMA_BPAGE_SIZE).unwrap();
    mapping[HOMA_BPAGE_SIZE + 5] = 0xAB;
    let arena = PageArena::adopt(mapping, 0x10000, 2).unwrap();
    assert_eq!(arena.bytes()[HOMA_BPAGE_SIZE + 5], 0xAB);
    assert_eq!(arena.bytes()[HOMA_BPAGE_SIZE + 4], 0);
}

#[test]
fn pointer_and_offset_undo_each_other() {
    let mapping = MmapMut::map_anon(4 * HOMA_BPAGE_SIZE).unwrap();
    let arena = PageArena::adopt(mapping, 0x7000_0000, 4).unwrap();
    assert_eq!(arena.pointer_at(0), 0x7000_0000);
    assert_eq!(arena.pointer_at(65536), 0x7001_0000);
    assert_eq!(arena.pointer_at(4 * HOMA_BPAGE_SIZE - 1), 0x7003_FFFF);
    assert_eq!(arena.offset_of(0x7000_0000), 0);
    assert_eq!(arena.offset_of(0x7002_0010), 2 * HOMA_BPAGE_SIZE + 16);
    for offset in [0usize, 1, 65535, 65536, 200_000, 4 * HOMA_BPAGE_SIZE - 1] {
        assert_eq!(arena.offset_of(arena.pointer_at(offset)), offset);
    }
}

#[test]
fn addresses_of_a_created_arena_start_at_its_base() {
    let arena = PageArena::create(2).unwrap();
    let last = arena.len() - 1;
    assert_eq!(arena.pointer_at(0), arena.base());
    assert_eq!(arena.pointer_at(last) - arena.base(), last);
    assert_eq!(arena.offset_of(arena.pointer_at(last)), last);
}

#[test]
fn contains_page_wants_an_aligned_offset_inside_the_arena() {
    let arena = PageArena::create(3).unwrap();
    assert!(arena.contains_page(0));
    assert!(arena.contains_page(65536));
    assert!(arena.contains_page(131072));
    assert!(!arena.contains_page(196608));
    assert!(!arena.contains_page(1));
    assert!(!arena.contains_page(65535));
    assert!(!arena.contains_page(65537));
    assert!(!arena.contains_page(u32::MAX));
}

#[test]
fn registration_names_the_whole_arena() {
    let mapping = MmapMut::map_anon(5 * HOMA_BPAGE_SIZE).unwrap();
    let arena = PageArena::adopt(mapping, 0x4000_0000, 5).unwrap();
    let args = HomaBuf.set(&arena);
    assert_eq!(args.start, 0x4000_0000);
    assert_eq!(args.length, 5 * HOMA_BPAGE_SIZE);
    let args = homa_set_buf_args::from(&arena);
    assert_eq!(args.start, 0x4000_0000);
    assert_eq!(args.length, 327_680);
}

#[test]
fn abort_args_carry_identifier_and_error() {
    let args = homa_abort_args::new(42, 5);
    assert_eq!(args.id, 42);
    assert_eq!(args.error, 5);
    assert_eq!(args.pad1, 0);
    assert_eq!(args.pad2, [0, 0]);
}
