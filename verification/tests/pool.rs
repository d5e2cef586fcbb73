use std::collections::VecDeque;
use std::mem;

use toy_pool::smpsc;
use toy_pool::{Handle, Message, Pool, Slot, WeakHandle};

#[test]
fn size() {
    assert_eq!(
        mem::size_of::<Handle<()>>(),
        mem::size_of::<u64>() + mem::size_of::<smpsc::Sender<Message>>(),
    );
}

#[test]
fn weak_handle_dies_with_its_generation() {
    let mut pool: Pool<&str> = Pool::with_capacity(4);
    let a = pool.add("A");
    assert_eq!(a.slot().to_usize(), 0);
    let a2 = a.clone();
    let weak_a: WeakHandle<&str> = a.to_downgraded();
    assert_eq!(pool.get(&weak_a), Some(&"A"));

    a.release();
    a2.release();
    // not removed until synced
    assert_eq!(pool.get(&weak_a), Some(&"A"));
    pool.sync_refcounts_and_invalidate();
    assert_eq!(pool.get(&weak_a), None);
    assert_eq!(pool.get_by_slot(weak_a.slot()), None);

    let b = pool.add("B");
    assert_eq!(b.slot().to_usize(), 0);
    let weak_b = b.to_downgraded();
    assert!(weak_a != weak_b);
    assert_eq!(weak_a.slot(), weak_b.slot());
    assert_eq!(pool.get(&weak_a), None);
    assert_eq!(pool.get(&weak_b), Some(&"B"));
    assert_eq!(pool.get_by_slot(weak_a.slot()), Some(&"B"));
}

#[test]
fn full_table_appends() {
    let mut pool: Pool<usize> = Pool::with_capacity(0);
    assert_eq!(pool.find_empty_slot(), None);
    let mut handles = Vec::new();
    for n in 0..5 {
        let h = pool.add(n * 10);
        assert_eq!(h.slot().to_usize(), n);
        assert_eq!(pool.find_empty_slot(), None);
        handles.push(h);
    }
    let last = pool.add(50);
    assert_eq!(last.slot().to_usize(), 5);
    assert_eq!(pool.slots().len(), 6);
    assert_eq!(*pool.index(&handles[3]), 30);
}

#[test]
fn lowest_free_slot_is_reused() {
    let mut pool: Pool<u8> = Pool::with_capacity(2);
    let a = pool.add(1);
    let b = pool.add(2);
    let c = pool.add(3);
    b.release();
    a.release();
    pool.sync_refcounts_and_invalidate();
    assert_eq!(pool.find_empty_slot(), Some(0));
    let d = pool.add(4);
    assert_eq!(d.slot().to_usize(), 0);
    assert_eq!(pool.find_empty_slot(), Some(1));
    let e = pool.add(5);
    assert_eq!(e.slot().to_usize(), 1);
    assert_eq!(pool.find_empty_slot(), None);
    let slots: Vec<usize> = pool.slots().iter().map(|s| s.to_usize()).collect();
    assert_eq!(slots, vec![0, 1, 2]);
    assert_eq!(*pool.index(&c), 3);
    assert_eq!(*pool.index(&d), 4);
    assert_eq!(*pool.index(&e), 5);
}

#[test]
fn counts_follow_the_queue_in_order() {
    let mut pool: Pool<char> = Pool::with_capacity(1);
    let a = pool.add('a');
    let slot = a.slot();
    let weak = a.to_downgraded();

    // one New too many for a Drop to land on zero
    let a2 = a.clone();
    a.release();
    assert!(pool.sync_refcounts().is_empty());
    assert_eq!(pool.get_by_slot(slot), Some(&'a'));

    // the last reference goes, the item stays until it is invalidated
    a2.release();
    assert_eq!(pool.sync_refcounts(), vec![slot]);
    assert_eq!(pool.get(&weak), Some(&'a'));
    assert!(pool.upgrade(&weak).is_none());
    assert!(pool.invalidate_unreferenced(slot));
    assert!(!pool.invalidate_unreferenced(slot));
    assert_eq!(pool.get(&weak), None);
}

#[test]
fn sync_twice_changes_nothing() {
    let mut pool: Pool<i32> = Pool::with_capacity(1);
    let a = pool.add(7);
    let b = a.clone();
    let weak = a.to_downgraded();
    b.release();
    pool.sync_refcounts_and_invalidate();
    assert_eq!(pool.get(&weak), Some(&7));
    pool.sync_refcounts_and_invalidate();
    assert_eq!(pool.get(&weak), Some(&7));
    // exactly one reference is left
    a.release();
    assert_eq!(pool.sync_refcounts(), vec![weak.slot()]);
    assert!(pool.sync_refcounts().is_empty());
}

#[test]
fn messages_that_cannot_be_applied_are_passed_over() {
    let mut big: Pool<u8> = Pool::with_capacity(3);
    let _h0 = big.add(0);
    let _h1 = big.add(1);
    let h2 = big.add(2);
    let far: Slot = h2.slot();

    let mut pool: Pool<u8> = Pool::with_capacity(1);
    let a = pool.add(9);
    let near = a.slot();

    let mut msgs = VecDeque::new();
    msgs.push_back(Message::Drop(far));
    msgs.push_back(Message::New(far));
    msgs.push_back(Message::Drop(near));
    msgs.push_back(Message::Drop(near));
    msgs.push_back(Message::New(near));
    msgs.push_back(Message::Drop(near));
    let zeroed = pool.apply_messages(&msgs, false);
    assert_eq!(zeroed, vec![near, near]);
    assert_eq!(pool.get_by_slot(near), Some(&9));
    assert_eq!(pool.get_by_slot(far), None);

    assert_eq!(pool.ref_count(near), Some(0));

    // the count is zero now: both leading drops are passed over
    let zeroed = pool.apply_messages(&msgs, true);
    assert_eq!(zeroed, vec![near]);
    assert_eq!(pool.ref_count(near), Some(0));
    assert_eq!(pool.get_by_slot(near), None);
}

#[test]
fn count_stops_at_its_largest() {
    let mut pool: Pool<u8> = Pool::with_capacity(1);
    let a = pool.add(1);
    let slot = a.slot();
    let mut msgs = VecDeque::new();
    for _ in 0..70000 {
        msgs.push_back(Message::New(slot));
    }
    assert!(pool.apply_messages(&msgs, true).is_empty());
    assert_eq!(pool.ref_count(slot), Some(u16::MAX));
    assert_eq!(pool.get_by_slot(slot), Some(&1));
}

#[test]
fn upgrade_counts_a_new_reference() {
    let mut pool: Pool<String> = Pool::with_capacity(1);
    let a = pool.add(String::from("x"));
    let weak = a.to_downgraded();
    pool.sync_refcounts_and_invalidate();
    let strong = pool.upgrade(&weak).unwrap();
    assert!(strong == a);
    assert_eq!(strong.slot(), weak.slot());
    a.release();
    pool.sync_refcounts_and_invalidate();
    assert_eq!(pool.get(&weak).map(|s| s.as_str()), Some("x"));
    let weak2: WeakHandle<String> = WeakHandle::from(strong);
    assert!(weak2 == weak);
    pool.sync_refcounts_and_invalidate();
    assert_eq!(pool.get(&weak), None);
}

#[test]
fn mutable_access() {
    let mut pool: Pool<i32> = Pool::with_capacity(3);
    let a = pool.add(1);
    let b = pool.add(2);
    let c = pool.add(3);
    *pool.index_mut(&a) += 10;
    *pool.get_mut(&b.to_downgraded()).unwrap() += 20;
    *pool.get_mut_by_slot(c.slot()).unwrap() += 30;
    assert_eq!(*pool.index(&a), 11);
    assert_eq!(*pool.index(&b), 22);
    assert_eq!(*pool.index(&c), 33);

    {
        let (x, z) = pool.get2_mut_by_slot(a.slot(), c.slot()).unwrap();
        mem::swap(x, z);
    }
    assert_eq!(*pool.index(&a), 33);
    assert_eq!(*pool.index(&c), 11);
    {
        let (z, y) = pool.get2_mut_by_slot(c.slot(), b.slot()).unwrap();
        *z = 100;
        *y = 200;
    }
    assert_eq!(*pool.index(&b), 200);
    assert_eq!(*pool.index(&c), 100);

    let gone = b.slot();
    b.release();
    pool.sync_refcounts_and_invalidate();
    assert!(pool.get2_mut_by_slot(a.slot(), gone).is_none());
    assert!(pool.get2_mut_by_slot(gone, c.slot()).is_none());
    assert!(pool.get_mut_by_slot(gone).is_none());
    assert!(pool.get_mut_by_slot(c.slot()).is_some());
    assert_eq!(Slot::default(), a.slot());
}

#[test]
fn iteration_skips_invalidated_slots() {
    let mut pool: Pool<u32> = Pool::with_capacity(4);
    let a = pool.add(10);
    let b = pool.add(20);
    let c = pool.add(30);
    b.release();
    pool.sync_refcounts_and_invalidate();

    let mut iter = pool.iter();
    assert_eq!(iter.next(), Some(&10));
    assert_eq!(iter.next(), Some(&30));
    assert_eq!(iter.next(), None);
    assert_eq!(iter.next(), None);

    let items: Vec<(usize, u32)> =
        pool.enumerate_items().iter().map(|(s, x)| (s.to_usize(), **x)).collect();
    assert_eq!(items, vec![(0, 10), (2, 30)]);
    assert_eq!(pool.slots(), vec![a.slot(), c.slot()]);
}

#[test]
fn mutable_iteration_writes_through() {
    let mut pool: Pool<u32> = Pool::with_capacity(4);
    let a = pool.add(1);
    let b = pool.add(2);
    let c = pool.add(3);
    let gone = b.slot();
    b.release();
    pool.sync_refcounts_and_invalidate();

    for x in pool.iter_mut() {
        *x *= 10;
    }
    assert_eq!(*pool.index(&a), 10);
    assert_eq!(*pool.index(&c), 30);
    assert_eq!(pool.get_by_slot(gone), None);

    for (slot, x) in pool.enumerate_items_mut() {
        *x += slot.to_usize() as u32;
    }
    assert_eq!(*pool.index(&a), 10);
    assert_eq!(*pool.index(&c), 32);
    assert_eq!(pool.iter_mut().len(), 2);
}

#[test]
fn table_queries() {
    let mut pool: Pool<u8> = Pool::with_capacity(0);
    assert_eq!(pool.slot_count(), 0);
    assert!(pool.has_generation_left());
    assert_eq!(pool.ref_count(Slot::default()), None);
    let a = pool.add(1);
    assert_eq!(pool.slot_count(), 1);
    assert_eq!(pool.ref_count(a.slot()), Some(1));
    let a2 = a.clone();
    let a3 = a2.clone();
    // counts move on synchronization only
    assert_eq!(pool.ref_count(a.slot()), Some(1));
    pool.sync_refcounts_and_invalidate();
    assert_eq!(pool.ref_count(a.slot()), Some(3));
    a3.release();
    let _weak = a2.downgrade();
    pool.sync_refcounts_and_invalidate();
    assert_eq!(pool.ref_count(a.slot()), Some(1));
    a.release();
    pool.sync_refcounts_and_invalidate();
    assert_eq!(pool.ref_count(Slot::default()), Some(0));
    assert_eq!(pool.slot_count(), 1);
    assert_eq!(pool.slots(), Vec::<Slot>::new());
}

#[test]
fn reference_counts_sum_to_outstanding_handles() {
    let mut pool: Pool<u8> = Pool::with_capacity(0);
    let mut held: Vec<Handle<u8>> = Vec::new();
    for round in 0..6u8 {
        held.push(pool.add(round));
        let copy = held[(round as usize) / 2].clone();
        held.push(copy);
        if round % 2 == 1 {
            held.remove(0).release();
            held.remove(0).release();
        }
        if round % 3 == 2 {
            pool.sync_refcounts_and_invalidate();
        }
    }
    pool.sync_refcounts_and_invalidate();
    let mut sum = 0usize;
    for index in 0..pool.slot_count() {
        let slots = pool.slots();
        let found = slots.iter().find(|s| s.to_usize() == index);
        let in_slot = held.iter().filter(|h| h.slot().to_usize() == index).count();
        match found {
            Some(slot) => {
                assert_eq!(pool.ref_count(*slot), Some(in_slot as u16));
                sum += in_slot;
            }
            None => assert_eq!(in_slot, 0),
        }
    }
    assert_eq!(sum, held.len());
}

#[test]
fn generations_grow_across_the_pool() {
    let mut pool: Pool<u8> = Pool::with_capacity(0);
    let a = pool.add(1);
    let b = pool.add(2);
    let weak_a = a.to_downgraded();
    let weak_b = b.to_downgraded();
    a.release();
    b.release();
    pool.sync_refcounts_and_invalidate();
    // both slots are free; both are reused under generations of their own
    let c = pool.add(3);
    let d = pool.add(4);
    assert_eq!(c.slot(), weak_a.slot());
    assert_eq!(d.slot(), weak_b.slot());
    assert!(c.to_downgraded() != weak_a);
    assert!(d.to_downgraded() != weak_b);
    assert_eq!(pool.get(&weak_a), None);
    assert_eq!(pool.get(&weak_b), None);
    assert!(pool.upgrade(&weak_a).is_none());
    assert_eq!(pool.get(&c.to_downgraded()), Some(&3));
    assert_eq!(pool.get(&d.to_downgraded()), Some(&4));
}

#[test]
fn weak_handle_of_another_pool() {
    let mut big: Pool<u8> = Pool::with_capacity(3);
    let _h0 = big.add(0);
    let h1 = big.add(1);
    let weak = h1.to_downgraded();
    let mut small: Pool<u8> = Pool::with_capacity(1);
    assert_eq!(small.get(&weak), None);
    assert!(small.get_mut(&weak).is_none());
    assert_eq!(small.get_by_slot(weak.slot()), None);
}

#[test]
fn queue_is_first_in_first_out() {
    let (tx, rx) = smpsc::unbounded::<u32>();
    assert_eq!(rx.recv(), None);
    let tx2 = tx.clone();
    tx.send(1);
    tx2.send(2);
    tx.send(3);
    assert_eq!(rx.recv(), Some(1));
    tx2.send(4);
    let rest: Vec<u32> = rx.recv_all().into_iter().collect();
    assert_eq!(rest, vec![2, 3, 4]);
    assert_eq!(rx.recv(), None);
    assert!(rx.recv_all().is_empty());
}

#[test]
fn oldest_item_leaves_first() {
    let mut held: VecDeque<u8> = VecDeque::new();
    assert_eq!(smpsc::pop_oldest(&mut held), None);
    assert!(held.is_empty());
    held.push_back(4);
    held.push_back(5);
    held.push_back(6);
    assert_eq!(smpsc::pop_oldest(&mut held), Some(4));
    assert_eq!(held, VecDeque::from(vec![5, 6]));
    assert_eq!(smpsc::pop_oldest(&mut held), Some(5));
    assert_eq!(smpsc::pop_oldest(&mut held), Some(6));
    assert_eq!(smpsc::pop_oldest(&mut held), None);
}

#[test]
fn handles_make_the_messages_they_queue() {
    let mut pool: Pool<u8> = Pool::with_capacity(2);
    let _a = pool.add(1);
    let b = pool.add(2);
    assert_eq!(b.new_message(), Message::New(b.slot()));
    assert_eq!(b.drop_message(), Message::Drop(b.slot()));
    assert!(b.new_message() != b.drop_message());
    assert_eq!(b.new_message().slot(), b.slot());
    assert_eq!(b.drop_message().slot().to_usize(), 1);

    // a clone queues exactly the new message, a release the drop message
    assert_eq!(pool.next_message(), None);
    let b2 = b.clone();
    assert_eq!(pool.next_message(), Some(b.new_message()));
    let expected = b2.drop_message();
    b2.release();
    assert_eq!(pool.next_message(), Some(expected));
    let weak = b.to_downgraded();
    assert_eq!(pool.next_message(), Some(Message::New(weak.slot())));
    assert_eq!(pool.next_message(), Some(Message::Drop(weak.slot())));
    let b3 = pool.upgrade(&weak).unwrap();
    assert_eq!(pool.next_message(), Some(b3.new_message()));
    assert_eq!(pool.next_message(), None);
}

#[test]
fn single_steps_land_on_zero_at_the_moment() {
    let mut pool: Pool<u8> = Pool::with_capacity(1);
    let a = pool.add(1);
    let slot = a.slot();
    let weak = a.to_downgraded();
    // queued now: New, Drop from the downgrade
    a.release();
    let revived = Message::New(slot);

    let mut landings = 0;
    let mut steps = 0;
    while let Some(msg) = pool.next_message() {
        steps += 1;
        if pool.apply_one(msg, false) {
            landings += 1;
            assert_eq!(msg, Message::Drop(slot));
            assert_eq!(pool.ref_count(slot), Some(0));
            assert_eq!(pool.get(&weak), Some(&1));
        }
    }
    assert_eq!(steps, 3);
    assert_eq!(landings, 1);
    assert_eq!(pool.passed_over(), 0);

    // a count that comes back to life after a landing is nonzero at the end
    assert!(!pool.apply_one(revived, false));
    assert_eq!(pool.ref_count(slot), Some(1));
    assert!(pool.apply_one(Message::Drop(slot), true));
    assert_eq!(pool.ref_count(slot), Some(0));
    assert_eq!(pool.get(&weak), None);
}

#[test]
fn passed_over_messages_are_counted() {
    let mut big: Pool<u8> = Pool::with_capacity(2);
    let _h0 = big.add(0);
    let h1 = big.add(1);
    let far = h1.slot();

    let mut pool: Pool<u8> = Pool::with_capacity(1);
    let a = pool.add(9);
    let near = a.slot();
    assert_eq!(pool.passed_over(), 0);

    // a slot that the table lacks
    assert!(!pool.apply_one(Message::New(far), true));
    assert_eq!(pool.passed_over(), 1);
    assert!(!pool.apply_one(Message::Drop(far), true));
    assert_eq!(pool.passed_over(), 2);
    // a drop at zero
    assert!(pool.apply_one(Message::Drop(near), false));
    assert_eq!(pool.passed_over(), 2);
    assert!(!pool.apply_one(Message::Drop(near), false));
    assert_eq!(pool.passed_over(), 3);
    // a new at the largest count
    let mut msgs = VecDeque::new();
    for _ in 0..65537 {
        msgs.push_back(Message::New(near));
    }
    assert!(pool.apply_messages(&msgs, false).is_empty());
    assert_eq!(pool.ref_count(near), Some(u16::MAX));
    assert_eq!(pool.passed_over(), 5);
    // nothing else changed
    assert_eq!(pool.get_by_slot(near), Some(&9));
    assert_eq!(pool.slot_count(), 1);
}
