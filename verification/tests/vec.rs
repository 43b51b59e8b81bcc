use imposters::collections::vec::{ImposterVec, Iter};
use imposters::{Erasable, Finalize, Imposter, ImposterDrop};
use std::cell::{Cell, RefCell};
use std::rc::Rc;

/// Counts its runs and keeps the first byte of every image it was run on.
struct Recorder {
    runs: Rc<Cell<usize>>,
    seen: Rc<RefCell<Vec<u8>>>,
}

impl Finalize for Recorder {
    fn finalize(&self, bytes: &[u8]) {
        self.runs.set(self.runs.get() + 1);
        self.seen.borrow_mut().push(bytes[0]);
    }
}

fn recorder() -> (ImposterDrop, Rc<Cell<usize>>, Rc<RefCell<Vec<u8>>>) {
    let runs = Rc::new(Cell::new(0));
    let seen = Rc::new(RefCell::new(Vec::new()));
    let hook: &'static Recorder =
        Box::leak(Box::new(Recorder { runs: runs.clone(), seen: seen.clone() }));
    (hook, runs, seen)
}

/// An imposter that holds `value` and is finalized by `hook`.
fn watched(value: u32, hook: ImposterDrop) -> Imposter {
    Imposter::from_raw(value.into_bytes(), u32::type_id(), u32::layout(), Some(hook))
}

/// A vector that holds `values` in order, each finalized by `hook`.
fn watched_vec(values: &[u32], hook: ImposterDrop) -> ImposterVec {
    let mut vec = ImposterVec::from_imposter(watched(values[0], hook));
    for value in &values[1..] {
        assert!(vec.push_imposter(watched(*value, hook)).is_ok());
    }
    vec
}

#[test]
fn new_imposter_vec() {
    let vec = ImposterVec::new::<u32>();
    assert!(vec.is_empty());
    let vec = ImposterVec::from_imposter(Imposter::new(42u32));
    assert!(vec.len() == 1);
}

#[test]
fn push_imposter_vec() {
    let mut vec = ImposterVec::new::<u32>();
    vec.push_item(42u32).unwrap();
    vec.push_imposter(Imposter::new(43u32)).ok().unwrap();
    assert!(vec.len() == 2);
}

#[test]
fn swap_drop_vec() {
    let mut vec = ImposterVec::from_imposter(Imposter::new(42u32));
    vec.push_item(43u32).unwrap();
    vec.push_item(44u32).unwrap();
    vec.swap_drop(1);
    assert!(vec.len() == 2);
    assert!(!vec.swap_drop(2));
    assert!(vec.len() == 2);
    vec.swap_drop(0);
    assert!(vec.len() == 1);
    vec.swap_drop(0);
    assert!(vec.len() == 0);
}

#[test]
fn swap_remove_vec() {
    let mut vec = ImposterVec::from_imposter(Imposter::new(42u32));
    vec.push_item(43u32).unwrap();
    vec.push_item(44u32).unwrap();
    assert!(vec.swap_remove(3).is_none());
    let test = vec.swap_remove(1).unwrap().downcast::<u32>().ok().unwrap();
    assert!(test == 43);
    let test = vec.swap_remove(0).unwrap().downcast::<u32>().ok().unwrap();
    assert!(test == 42);
    let test = vec.swap_remove(0).unwrap().downcast::<u32>().ok().unwrap();
    assert!(test == 44);
}

#[test]
fn push_then_get_reads_the_value_back() {
    let mut vec = ImposterVec::new::<u64>();
    vec.push_item(0x0102_0304_0506_0708u64).unwrap();
    assert_eq!(vec.get::<u64>(0), Some(0x0102_0304_0506_0708u64));
    assert_eq!(vec.get_ptr(0).unwrap(), &[8u8, 7, 6, 5, 4, 3, 2, 1]);
    assert_eq!(vec.get::<u64>(1), None);
    assert_eq!(vec.get::<u32>(0), None);
    assert!(vec.get_ptr(1).is_none());
}

#[test]
fn foreign_item_is_handed_back() {
    let mut vec = ImposterVec::new::<u32>();
    vec.push_item(7u32).unwrap();
    assert_eq!(vec.push_item(9u64), Err(9u64));
    assert_eq!(vec.len(), 1);
    assert_eq!(vec.capacity(), 1);
    assert_eq!(vec.get::<u32>(0), Some(7));
}

#[test]
fn foreign_imposter_is_handed_back() {
    let mut vec = ImposterVec::new::<u32>();
    vec.push_item(7u32).unwrap();
    let rejected = vec.push_imposter(Imposter::new(9u64)).err().unwrap();
    assert_eq!(rejected.downcast::<u64>().ok().unwrap(), 9);
    assert_eq!(vec.len(), 1);
    assert_eq!(vec.as_slice::<u32>(), Some(vec![7u32]));
}

#[test]
fn capacity_doubles_from_one() {
    let mut vec = ImposterVec::new::<u32>();
    let mut path = vec![vec.capacity()];
    for value in 0..9u32 {
        vec.push_item(value).unwrap();
        assert!(vec.capacity() >= vec.len());
        path.push(vec.capacity());
    }
    assert_eq!(path, vec![0, 1, 2, 4, 4, 8, 8, 8, 8, 16]);
    assert_eq!(vec.as_slice::<u32>(), Some(vec![0u32, 1, 2, 3, 4, 5, 6, 7, 8]));
}

#[test]
fn swap_remove_puts_the_last_element_in_the_gap() {
    let mut vec = ImposterVec::new::<u32>();
    for value in [10u32, 11, 12, 13] {
        vec.push_item(value).unwrap();
    }
    let removed = vec.swap_remove(1).unwrap();
    assert_eq!(removed.type_id(), u32::type_id());
    assert_eq!(removed.layout(), u32::layout());
    assert_eq!(removed.downcast::<u32>().ok().unwrap(), 11);
    assert_eq!(vec.as_slice::<u32>(), Some(vec![10u32, 13, 12]));
    assert_eq!(vec.len(), 3);
    assert_eq!(vec.capacity(), 4);
    let removed = vec.swap_remove(2).unwrap();
    assert_eq!(removed.downcast::<u32>().ok().unwrap(), 12);
    assert_eq!(vec.as_slice::<u32>(), Some(vec![10u32, 13]));
}

#[test]
fn two_field_records_grow_and_swap() {
    let mut vec = ImposterVec::new::<(u32, u32)>();
    assert_eq!(vec.capacity(), 0);
    vec.push_item((1u32, 100u32)).unwrap();
    assert_eq!(vec.capacity(), 1);
    vec.push_item((2u32, 200u32)).unwrap();
    assert_eq!(vec.capacity(), 2);
    vec.push_item((3u32, 300u32)).unwrap();
    assert_eq!(vec.capacity(), 4);
    assert_eq!(vec.len(), 3);
    let removed = vec.swap_remove(0).unwrap();
    assert_eq!(removed.downcast::<(u32, u32)>().ok().unwrap(), (1, 100));
    assert_eq!(vec.len(), 2);
    assert_eq!(vec.get::<(u32, u32)>(0), Some((3, 300)));
    assert_eq!(vec.get::<(u32, u32)>(1), Some((2, 200)));
    assert_eq!(vec.as_slice::<(u32, u32)>(), Some(vec![(3u32, 300u32), (2, 200)]));
}

#[test]
fn swap_drop_finalizes_each_element_once() {
    let (hook, runs, seen) = recorder();
    let mut vec = watched_vec(&[1, 2, 3, 4, 5], hook);
    assert_eq!(runs.get(), 0);
    assert!(vec.swap_drop(1));
    assert_eq!(runs.get(), 1);
    assert_eq!(vec.as_slice::<u32>(), Some(vec![1u32, 5, 3, 4]));
    assert!(!vec.swap_drop(4));
    assert_eq!(runs.get(), 1);
    while vec.swap_drop(0) {}
    assert!(vec.is_empty());
    assert_eq!(runs.get(), 5);
    let mut finalized = seen.borrow().clone();
    finalized.sort();
    assert_eq!(finalized, vec![1, 2, 3, 4, 5]);
    drop(vec);
    assert_eq!(runs.get(), 5);
}

#[test]
fn clear_finalizes_each_element_once() {
    let (hook, runs, seen) = recorder();
    let mut vec = watched_vec(&[1, 2, 3], hook);
    vec.clear();
    assert_eq!(vec.len(), 0);
    assert_eq!(vec.capacity(), 4);
    assert_eq!(runs.get(), 3);
    assert_eq!(*seen.borrow(), vec![1, 2, 3]);
    vec.clear();
    assert_eq!(runs.get(), 3);
    drop(vec);
    assert_eq!(runs.get(), 3);
}

#[test]
fn dropping_a_vector_finalizes_what_it_still_owns() {
    let (hook, runs, seen) = recorder();
    let mut vec = watched_vec(&[1, 2, 3, 4], hook);
    let taken = vec.swap_remove(0).unwrap();
    assert_eq!(runs.get(), 0);
    assert!(vec.swap_drop(0));
    assert_eq!(*seen.borrow(), vec![4]);
    drop(vec);
    assert_eq!(runs.get(), 3);
    assert_eq!(*seen.borrow(), vec![4, 3, 2]);
    drop(taken);
    assert_eq!(runs.get(), 4);
    assert_eq!(*seen.borrow(), vec![4, 3, 2, 1]);
}

#[test]
fn values_handed_out_are_not_finalized() {
    let (hook, runs, _) = recorder();
    let vec = watched_vec(&[1, 2, 3], hook);
    assert_eq!(vec.into_vec::<u32>().ok().unwrap(), vec![1, 2, 3]);
    assert_eq!(runs.get(), 0);
    let imposter = watched(9, hook);
    assert_eq!(imposter.downcast::<u32>().ok().unwrap(), 9);
    assert_eq!(runs.get(), 0);
    let imposter = watched(9, hook);
    let imposter = imposter.downcast::<u64>().err().unwrap();
    assert_eq!(runs.get(), 0);
    assert_eq!(imposter.downcast_ref::<u32>(), Some(9));
    drop(imposter);
    assert_eq!(runs.get(), 1);
    watched(9, hook).dispose_and_forget();
    assert_eq!(runs.get(), 1);
}

#[test]
fn zero_sized_elements_take_no_room() {
    let mut vec = ImposterVec::new::<()>();
    for _ in 0..100 {
        vec.push_item(()).unwrap();
        assert_eq!(vec.capacity(), 0);
    }
    assert_eq!(vec.len(), 100);
    assert_eq!(vec.get::<()>(99), Some(()));
    assert_eq!(vec.get::<()>(100), None);
    assert!(vec.get_ptr(5).unwrap().is_empty());
    let removed = vec.swap_remove(3).unwrap();
    assert!(removed.data().is_empty());
    assert_eq!(vec.len(), 99);
    assert!(vec.swap_drop(0));
    assert_eq!(vec.len(), 98);
    let unit = ImposterVec::from_imposter(Imposter::new(()));
    assert_eq!(unit.len(), 1);
    assert_eq!(unit.capacity(), 0);
}

#[test]
fn get_mut_stores_in_place() {
    let (hook, runs, seen) = recorder();
    let mut vec = watched_vec(&[1, 2, 3], hook);
    assert_eq!(vec.get_mut(1, 20u32), Ok(()));
    assert_eq!(*seen.borrow(), vec![2]);
    assert_eq!(vec.get_mut(3, 40u32), Err(40));
    assert_eq!(vec.get_mut(0, 10u64), Err(10));
    assert_eq!(vec.as_slice::<u32>(), Some(vec![1u32, 20, 3]));
    assert_eq!(runs.get(), 1);
}

#[test]
fn into_vec_of_a_foreign_type_hands_the_vector_back() {
    let mut vec = ImposterVec::new::<u32>();
    vec.push_item(5u32).unwrap();
    let vec = vec.into_vec::<u64>().err().unwrap();
    assert_eq!(vec.len(), 1);
    assert_eq!(vec.get::<u32>(0), Some(5));
    assert!(vec.is_type::<u64>());
    assert!(!vec.is_type::<u32>());
    assert_eq!(vec.type_id(), u32::type_id());
    assert_eq!(vec.as_slice::<u64>(), None);
}

#[test]
fn iter_walks_the_images_in_order_and_ends() {
    let mut vec = ImposterVec::new::<u16>();
    vec.push_item(0x0102u16).unwrap();
    vec.push_item(0x0304u16).unwrap();
    let mut iter = vec.iter();
    assert_eq!(iter.next().unwrap(), &[2u8, 1]);
    assert_eq!(iter.next().unwrap(), &[4u8, 3]);
    assert!(iter.next().is_none());
    assert!(iter.next().is_none());
    let mut again = vec.iter();
    assert_eq!(again.next().unwrap(), &[2u8, 1]);
}

#[test]
fn raw_images_can_be_pushed() {
    let mut vec = ImposterVec::new::<u32>();
    vec.push_raw_unchecked(&[1, 0, 0, 0]);
    vec.push_imposter_unchecked(Imposter::new(2u32));
    vec.push_item_unchecked(3u32);
    assert_eq!(vec.as_slice_unchecked::<u32>(), vec![1, 2, 3]);
    assert_eq!(vec.get_unchecked::<u32>(2), 3);
    assert_eq!(vec.get_ptr_unchecked(1), &[2u8, 0, 0, 0]);
    assert_eq!(vec.swap_remove_unchecked(0).downcast_unchecked::<u32>(), 1);
    assert_eq!(vec.into_vec_unchecked::<u32>(), vec![3, 2]);
}

#[test]
fn a_vector_with_spare_slots_has_room() {
    let mut vec = ImposterVec::new::<u64>();
    assert!(vec.has_room());
    for value in 0..3u64 {
        vec.push_item(value).unwrap();
        assert!(vec.has_room());
    }
    assert_eq!(vec.capacity(), 4);
    let units = ImposterVec::new::<()>();
    assert!(units.has_room());
}

#[test]
fn a_walk_can_be_made_from_the_vector() {
    let mut vec = ImposterVec::new::<u32>();
    vec.push_item(1u32).unwrap();
    let mut iter = Iter::new(&vec);
    assert_eq!(iter.next().unwrap(), &[1u8, 0, 0, 0]);
    assert!(iter.next().is_none());
    let empty = ImposterVec::new::<u32>();
    assert!(empty.iter().next().is_none());
}
