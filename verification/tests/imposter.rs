use imposters::{Erasable, Finalize, Imposter, ImposterDrop};
use std::cell::Cell;
use std::rc::Rc;

/// Counts how often it is run, and remembers the last image it was run on.
struct Counter {
    runs: Rc<Cell<usize>>,
    last: Rc<Cell<u8>>,
}

impl Finalize for Counter {
    fn finalize(&self, bytes: &[u8]) {
        self.runs.set(self.runs.get() + 1);
        self.last.set(bytes[0]);
    }
}

fn counter() -> (ImposterDrop, Rc<Cell<usize>>, Rc<Cell<u8>>) {
    let runs = Rc::new(Cell::new(0));
    let last = Rc::new(Cell::new(0));
    let hook: &'static Counter = Box::leak(Box::new(Counter { runs: runs.clone(), last: last.clone() }));
    (hook, runs, last)
}

#[test]
fn new_imposter() {
    let test1: u32 = 42;
    let imposter = Imposter::new(test1);
    assert!(imposter.downcast_ref::<u32>().unwrap() == 42);
    assert_eq!(imposter.data(), &[42u8, 0, 0, 0]);
}

#[test]
fn imposter_downcast() {
    let test1: u32 = 42;
    let imposter = Imposter::new(test1);
    assert!(imposter.downcast_ref::<u32>().is_some());
    assert!(imposter.downcast_ref::<u64>().is_none());
    let test1 = imposter.downcast::<u32>().ok().unwrap();
    assert!(test1 == 42);
}

#[test]
fn drop_imposter() {
    let (hook, runs, last) = counter();
    let imposter =
        Imposter::from_raw(42u32.into_bytes(), u32::type_id(), u32::layout(), Some(hook));
    assert_eq!(runs.get(), 0);
    drop(imposter);
    assert_eq!(runs.get(), 1);
    assert_eq!(last.get(), 42);
}

#[test]
fn downcast_of_a_foreign_type_keeps_the_value() {
    let imposter = Imposter::new(42u32);
    assert!(imposter.has_type_id::<u64>());
    assert!(!imposter.has_type_id::<u32>());
    let imposter = imposter.downcast::<u64>().err().unwrap();
    assert_eq!(imposter.type_id(), u32::type_id());
    assert_eq!(imposter.layout(), u32::layout());
    assert!(imposter.drop_fn().is_none());
    assert_eq!(imposter.downcast_box::<u32>().ok().unwrap(), Box::new(42));
}

#[test]
fn unchecked_downcasts_read_the_value() {
    let imposter = Imposter::new((7u32, 9u32));
    assert_eq!(imposter.data(), &[7u8, 0, 0, 0, 9, 0, 0, 0]);
    assert_eq!(imposter.downcast_ref_unchecked::<(u32, u32)>(), (7, 9));
    assert_eq!(*imposter.downcast_box_unchecked::<(u32, u32)>(), (7, 9));
}

#[test]
fn downcast_mut_stores_in_place() {
    let (hook, runs, last) = counter();
    let mut imposter = Imposter::from_raw(42u32.into_bytes(), u32::type_id(), u32::layout(), Some(hook));
    assert_eq!(imposter.downcast_mut(7u64), Err(7));
    assert_eq!(runs.get(), 0);
    assert_eq!(imposter.downcast_mut(43u32), Ok(()));
    assert_eq!(runs.get(), 1);
    assert_eq!(last.get(), 42);
    assert_eq!(imposter.downcast_ref::<u32>(), Some(43));
    drop(imposter);
    assert_eq!(runs.get(), 2);
    assert_eq!(last.get(), 43);
}

#[test]
fn images_of_the_wrong_length_are_no_values() {
    assert_eq!(u32::from_bytes(&[1, 2, 3]), None);
    assert_eq!(u32::from_bytes(&[1, 2, 3, 4]), Some(0x0403_0201));
    assert_eq!(u16::from_bytes(&[1, 2]), Some(0x0201));
    assert_eq!(u64::from_bytes(&[1, 0, 0, 0, 0, 0, 0, 0]), Some(1));
    assert_eq!(<()>::from_bytes(&[]), Some(()));
    assert_eq!(<()>::from_bytes(&[0]), None);
    assert_eq!(<(u32, u32)>::from_bytes(&[1, 0, 0, 0, 2, 0, 0]), None);
    assert_eq!(0x0102u16.into_bytes(), vec![2u8, 1]);
    assert_eq!(u8::from_bytes(&[9]), Some(9));
    assert_eq!(u8::from_bytes(&[]), None);
    assert_eq!(9u8.into_bytes(), vec![9u8]);
}

#[test]
fn boxed_value_becomes_an_imposter() {
    let imposter = Imposter::from(Box::new(0x0102_0304u32));
    assert_eq!(imposter.data(), &[4u8, 3, 2, 1]);
    assert_eq!(imposter.downcast::<u32>().ok().unwrap(), 0x0102_0304);
    let imposter: Imposter = Box::new(9u64).into();
    assert_eq!(imposter.downcast_ref::<u64>(), Some(9));
}
