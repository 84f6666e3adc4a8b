use pie_runtime::frame_alloc::FrameAllocator;

#[test]
fn alloc_returns_reference_live_until_reset() {
    let mut alloc = FrameAllocator::new();
    let x: &mut u32 = alloc.alloc_value(42);
    assert_eq!(*x, 42);
    *x = 7;
    assert_eq!(*x, 7);
    alloc.reset();
}

#[test]
fn alloc_str_copy_round_trips() {
    let mut alloc = FrameAllocator::new();
    let s = alloc.alloc_str_copy("hello frame");
    assert_eq!(s, "hello frame");
    alloc.reset();
}

#[test]
fn reset_is_idempotent_and_keeps_chunks_for_reuse() {
    let mut alloc = FrameAllocator::new();
    for _ in 0..100 {
        let _ = alloc.alloc_value(0u64);
    }
    let after_warmup = alloc.allocated_bytes();
    alloc.reset();
    alloc.reset();
    for _ in 0..100 {
        let _ = alloc.alloc_value(0u64);
    }
    assert!(
        alloc.allocated_bytes() <= after_warmup,
        "chunks should be reused after reset; grew from {after_warmup} to {}",
        alloc.allocated_bytes()
    );
}

#[test]
fn bump_accessor_enables_direct_allocation() {
    let alloc = FrameAllocator::new();
    let arr: &mut [i32; 3] = alloc.bump().alloc([1, 2, 3]);
    assert_eq!(arr, &mut [1, 2, 3]);
}
