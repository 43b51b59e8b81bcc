use imposters::{Layout, RawMemory};

#[test]
fn new_memory_is_empty() {
    let memory = RawMemory::new::<u32>();
    assert_eq!(memory.capacity(), 0);
    assert_eq!(memory.element_layout(), Layout { size: 4, align: 4 });
    assert!(memory.ptr().is_empty());
    assert!(memory.index_ptr(0).is_none());
    assert_eq!(memory.memory_layout(), Layout { size: 0, align: 4 });
}

#[test]
fn resize_keeps_the_bytes_that_stay() {
    let mut memory = RawMemory::with_element_layout(Layout { size: 2, align: 2 });
    memory.resize(2);
    assert_eq!(memory.capacity(), 2);
    assert_eq!(memory.ptr(), &[0u8, 0, 0, 0]);
    memory.copy_to_index_unchecked(&[1, 2], 0);
    memory.copy_to_index_unchecked(&[3, 4], 1);
    assert_eq!(memory.ptr(), &[1u8, 2, 3, 4]);
    memory.resize(4);
    assert_eq!(memory.ptr(), &[1u8, 2, 3, 4, 0, 0, 0, 0]);
    assert_eq!(memory.memory_layout(), Layout { size: 8, align: 2 });
    memory.resize(4);
    assert_eq!(memory.capacity(), 4);
    memory.resize(1);
    assert_eq!(memory.ptr(), &[1u8, 2]);
    assert_eq!(memory.capacity(), 1);
    memory.resize(0);
    assert_eq!(memory.capacity(), 0);
    assert!(memory.ptr().is_empty());
}

#[test]
fn swap_exchanges_two_slots() {
    let mut memory = RawMemory::with_element_layout(Layout { size: 2, align: 1 });
    memory.resize(3);
    memory.copy_to_index_unchecked(&[1, 2], 0);
    memory.copy_to_index_unchecked(&[3, 4], 1);
    memory.copy_to_index_unchecked(&[5, 6], 2);
    memory.swap_unchecked(0, 2);
    assert_eq!(memory.ptr(), &[5u8, 6, 3, 4, 1, 2]);
    memory.swap_unchecked(1, 1);
    assert_eq!(memory.ptr(), &[5u8, 6, 3, 4, 1, 2]);
    assert_eq!(memory.index_ptr_unchecked(2), &[1u8, 2]);
    assert_eq!(memory.index_ptr(1).unwrap(), &[3u8, 4]);
    assert!(memory.index_ptr(3).is_none());
    assert_eq!(memory.copy_to_alloc_unchecked(0), vec![5u8, 6]);
}

#[test]
fn zero_sized_layout_never_allocates() {
    let mut memory = RawMemory::new::<()>();
    memory.resize(10);
    assert_eq!(memory.capacity(), 0);
    assert!(memory.ptr().is_empty());
    memory.copy_to_index_unchecked(&[], 7);
    memory.swap_unchecked(1, 8);
    assert!(memory.index_ptr_unchecked(3).is_empty());
    assert!(memory.copy_to_alloc_unchecked(3).is_empty());
    assert_eq!(memory.memory_layout(), Layout { size: 0, align: 1 });
}
