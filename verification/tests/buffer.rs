use initvec::{InitVec, OutOfRange};
use std::cell::Cell;
use std::rc::Rc;

#[test]
fn all_init() {
    let mut vec = InitVec::with_capacity(3);
    vec.insert(1, "y").unwrap();
    vec.insert(2, "z").unwrap();
    vec.insert(0, "x").unwrap();
    assert_eq!(Some(vec!["x", "y", "z"]), vec.init());
}

#[test]
fn some_uninit() {
    let mut vec = InitVec::with_capacity(3);
    vec.insert(2, "z").unwrap();
    vec.insert(0, "x").unwrap();
    assert!(vec.init().is_none());
}

#[test]
fn try_all_init() {
    let mut vec = InitVec::with_capacity(3);
    vec.insert(1, "y").unwrap();
    vec.insert(2, "z").unwrap();
    vec.insert(0, "x").unwrap();
    assert_eq!(Ok(vec!["x", "y", "z"]), vec.try_init());
}

#[test]
fn try_some_uninit() {
    let mut vec = InitVec::with_capacity(3);
    vec.insert(2, "z").unwrap();
    vec.insert(0, "x").unwrap();
    assert_eq!(Err(vec!["x", "z"]), vec.try_init());
}

#[test]
#[should_panic(expected = "index out of bounds")]
fn insert_out_of_bounds() {
    let mut vec = InitVec::with_capacity(3);
    vec.insert(10, "fail").expect("index out of bounds");
}

#[test]
fn init_with_refs() {
    let data = [4, 2];

    let mut vec = InitVec::with_capacity(data.len());

    data.iter().enumerate().for_each(|(i, item_ref)| {
        vec.insert(i, item_ref).unwrap();
    });

    assert_eq!(Some(vec![&4, &2]), vec.init());
}

#[test]
fn fresh_buffer_without_slots_is_complete() {
    let vec: InitVec<u8> = InitVec::with_capacity(0);
    assert_eq!(Some(vec![]), vec.init());
    let vec: InitVec<u8> = InitVec::with_capacity(0);
    assert_eq!(Ok(vec![]), vec.try_init());
}

#[test]
fn fresh_buffer_with_slots_is_incomplete() {
    for capacity in 1..70usize {
        let vec: InitVec<u8> = InitVec::with_capacity(capacity);
        assert_eq!(None, vec.init());
        let vec: InitVec<u8> = InitVec::with_capacity(capacity);
        assert_eq!(Err(vec![]), vec.try_init());
    }
}

#[test]
fn every_order_of_writes_completes() {
    let orders: [[usize; 3]; 6] =
        [[0, 1, 2], [0, 2, 1], [1, 0, 2], [1, 2, 0], [2, 0, 1], [2, 1, 0]];
    for order in orders {
        let mut vec = InitVec::with_capacity(3);
        for i in order {
            assert_eq!(Ok(()), vec.insert(i, i * 10));
        }
        assert_eq!(Some(vec![0, 10, 20]), vec.init());
    }
}

#[test]
fn many_slots_filled_backwards() {
    let capacity = 300usize;
    let mut vec = InitVec::with_capacity(capacity);
    for i in (0..capacity).rev() {
        vec.insert(i, i as u32).unwrap();
    }
    let expected: Vec<u32> = (0..capacity as u32).collect();
    assert_eq!(Ok(expected), vec.try_init());
}

#[test]
fn partial_fill_gives_live_values_in_index_order() {
    let mut vec = InitVec::with_capacity(200);
    for i in [199usize, 3, 64, 128, 0, 127, 65] {
        vec.insert(i, i).unwrap();
    }
    assert_eq!(Err(vec![0, 3, 64, 65, 127, 128, 199]), vec.try_init());
}

#[test]
fn only_last_slot_set() {
    let mut vec = InitVec::with_capacity(3);
    vec.insert(2, "z").unwrap();
    assert_eq!(Err(vec!["z"]), vec.try_init());
}

#[test]
fn partial_fill_is_none() {
    let mut vec = InitVec::with_capacity(3);
    vec.insert(2, "z").unwrap();
    assert_eq!(None, vec.init());
}

#[test]
fn reinsert_replaces_the_value() {
    let mut vec = InitVec::with_capacity(2);
    vec.insert(0, "first").unwrap();
    vec.insert(0, "second").unwrap();
    // Had the second write been counted, the buffer would now pass for complete.
    assert_eq!(Err(vec!["second"]), vec.try_init());

    let mut vec = InitVec::with_capacity(2);
    vec.insert(0, "first").unwrap();
    vec.insert(1, "other").unwrap();
    vec.insert(0, "second").unwrap();
    assert_eq!(Some(vec!["second", "other"]), vec.init());
}

#[test]
fn out_of_range_insert_changes_nothing() {
    let mut vec = InitVec::with_capacity(3);
    vec.insert(1, "y").unwrap();
    assert_eq!(Err(OutOfRange { index: 3, capacity: 3 }), vec.insert(3, "fail"));
    assert_eq!(
        Err(OutOfRange { index: usize::MAX, capacity: 3 }),
        vec.insert(usize::MAX, "fail")
    );
    assert_eq!(Err(vec!["y"]), vec.try_init());

    let mut vec = InitVec::with_capacity(0);
    assert_eq!(Err(OutOfRange { index: 0, capacity: 0 }), vec.insert(0, "fail"));
    assert_eq!(Some(vec![]), vec.init());
}

/// Counts how often its values are dropped.
struct Counted {
    drops: Rc<Cell<usize>>,
}

impl Drop for Counted {
    fn drop(&mut self) {
        self.drops.set(self.drops.get() + 1);
    }
}

#[test]
fn dropping_a_partial_buffer_drops_the_live_values() {
    let drops = Rc::new(Cell::new(0));
    let mut vec = InitVec::with_capacity(5);
    vec.insert(1, Counted { drops: drops.clone() }).unwrap();
    vec.insert(3, Counted { drops: drops.clone() }).unwrap();
    assert_eq!(0, drops.get());
    drop(vec);
    assert_eq!(2, drops.get());
}

#[test]
fn reinsert_drops_the_old_value_once() {
    let drops = Rc::new(Cell::new(0));
    let mut vec = InitVec::with_capacity(2);
    vec.insert(0, Counted { drops: drops.clone() }).unwrap();
    vec.insert(0, Counted { drops: drops.clone() }).unwrap();
    assert_eq!(1, drops.get());
    drop(vec);
    assert_eq!(2, drops.get());
}

#[test]
fn rejected_insert_drops_only_the_rejected_item() {
    let drops = Rc::new(Cell::new(0));
    let mut vec = InitVec::with_capacity(1);
    vec.insert(0, Counted { drops: drops.clone() }).unwrap();
    assert!(vec.insert(1, Counted { drops: drops.clone() }).is_err());
    assert_eq!(1, drops.get());
    drop(vec);
    assert_eq!(2, drops.get());
}

#[test]
fn completion_hands_the_values_over() {
    let drops = Rc::new(Cell::new(0));
    let mut vec = InitVec::with_capacity(2);
    vec.insert(0, Counted { drops: drops.clone() }).unwrap();
    vec.insert(1, Counted { drops: drops.clone() }).unwrap();
    let items = vec.init().expect("all slots were filled");
    assert_eq!(0, drops.get());
    drop(items);
    assert_eq!(2, drops.get());

    let mut vec = InitVec::with_capacity(3);
    vec.insert(2, Counted { drops: drops.clone() }).unwrap();
    let items = vec.try_init().err().expect("two slots were left empty");
    assert_eq!(2, drops.get());
    assert_eq!(1, items.len());
    drop(items);
    assert_eq!(3, drops.get());

    let mut vec = InitVec::with_capacity(3);
    vec.insert(2, Counted { drops: drops.clone() }).unwrap();
    assert!(vec.init().is_none());
    assert_eq!(4, drops.get());
}
