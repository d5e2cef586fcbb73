//! The pool: a table of slots, a generation counter and the consumer end of
//! the queue on which its handles report.
//!
//! Note that the pool does NOT remove unreferenced items until it is synced.
//! It is single-thread only.

use crate::handle::{Handle, Message, RefCount, Slot, WeakHandle};
use crate::iter::{Iter, IterMut};
use crate::model::{items_from, refill, saturate, slots_from, EntryView, PoolView};
use crate::smpsc::{unbounded, Receiver, Sender};
use std::cell::Cell;
use std::collections::VecDeque;
use vstd::prelude::*;

verus! {

#[derive(Debug)]
pub(crate) struct PoolEntry<T> {
    pub(crate) data: Option<T>,
    pub(crate) gen: u32,
    pub(crate) ref_count: RefCount,
}

impl<T> PoolEntry<T> {
    /// The item, mutably. Generation and count stay as they are.
    fn data_mut(&mut self) -> (item: Option<&mut T>)
        ensures
            (match item {
                Some(x) => {
                    &&& old(self).data == Some(*x)
                    &&& final(self).data == Some(*final(x))
                },
                None => old(self).data is None && final(self).data is None,
            }),
            final(self).gen == old(self).gen,
            final(self).ref_count == old(self).ref_count,
    {
        self.data.as_mut()
    }

    /// What the entry holds, as plain values.
    pub(crate) open spec fn view(&self) -> EntryView<T> {
        EntryView {
            item: self.data,
            generation: self.gen as nat,
            ref_count: self.ref_count as nat,
        }
    }
}

/// The table as plain values.
pub(crate) open spec fn entries_view<T>(entries: Seq<PoolEntry<T>>) -> Seq<EntryView<T>> {
    Seq::new(entries.len(), |i: int| entries[i]@)
}

/// Dynamic array with reference-counted [`Handle`]s
///
/// Be sure to call a message syncing method to track reference counts.
pub struct Pool<T> {
    /// NOTE: no entry is ever removed from the table; that would change the
    /// positions of other items.
    entries: Vec<PoolEntry<T>>,
    /// The generation given out last.
    last_gen: u32,
    /// Messages passed over so far; stops at the largest value.
    passed_over: u64,
    /// Receiver
    rx: Receiver<Message>,
    /// Sender. Cloned and passed to [`Handle`]s
    tx: Sender<Message>,
}

impl<T> View for Pool<T> {
    type V = PoolView<T>;

    closed spec fn view(&self) -> PoolView<T> {
        PoolView {
            entries: entries_view(self.entries@),
            last_generation: self.last_gen as nat,
            passed_over: self.passed_over as nat,
        }
    }
}

impl<T> Pool<T> {
    /// The queue that the pool drains.
    pub closed spec fn channel(&self) -> Cell<VecDeque<Message>> {
        self.rx.channel()
    }

    /// Whether the handles that the pool gives out report to the queue that
    /// it drains.
    pub closed spec fn connected(&self) -> bool {
        self.tx.channel() == self.rx.channel()
    }

    /// The pool's invariant. Every constructor establishes it and every
    /// method keeps it.
    pub open spec fn wf(&self) -> bool {
        self@.wf() && self.connected()
    }

    /// An empty pool with room reserved for `cap` items and a queue of its
    /// own.
    pub fn with_capacity(cap: usize) -> (pool: Self)
        ensures
            pool.wf(),
            pool@.entries.len() == 0,
            pool@.last_generation == 0,
            pool@.passed_over == 0,
    {
        let (tx, rx) = unbounded();
        Pool { entries: Vec::with_capacity(cap), last_gen: 0, passed_over: 0, rx, tx }
    }
}

/// # ----- What a caller can ask about the table -----
impl<T> Pool<T> {
    /// The number of slots in the table, with or without an item.
    pub fn slot_count(&self) -> (count: usize)
        ensures
            count == self@.entries.len(),
    {
        self.entries.len()
    }

    /// Whether another item can be added: whether the generation counter has
    /// a generation left to give.
    pub fn has_generation_left(&self) -> (left: bool)
        ensures
            left == (self@.last_generation < u32::MAX),
    {
        self.last_gen < u32::MAX
    }

    /// How many messages the pool has passed over so far because they could
    /// not be applied: messages for a slot that the table does not have,
    /// `New` messages for a count at its largest, `Drop` messages for a count
    /// at zero. As long as handles are only cloned, released and upgraded
    /// while a strong handle for their slot is outstanding, this stays zero;
    /// anything else means that reference counting was misused.
    pub fn passed_over(&self) -> (count: u64)
        ensures
            count == self@.passed_over,
    {
        self.passed_over
    }

    /// Takes the oldest message off the queue, `None` when nothing is
    /// queued. Together with [`Pool::apply_one`] this lets a caller
    /// synchronize message by message and act the moment a count lands on
    /// zero.
    pub fn next_message(&self) -> (msg: Option<Message>) {
        self.rx.recv()
    }

    /// The reference count of `slot` as of the last synchronization, `None`
    /// when the table has no such slot.
    pub fn ref_count(&self, slot: Slot) -> (count: Option<RefCount>)
        ensures
            (match count {
                Some(n) => slot@ < self@.entries.len() && self@.entries[slot@ as int].ref_count
                    == n,
                None => slot@ >= self@.entries.len(),
            }),
    {
        let index: usize = slot.to_usize();
        if index < self.entries.len() {
            Some(self.entries[index].ref_count)
        } else {
            None
        }
    }
}

/// # ----- Reference counter synchronization --
impl<T> Pool<T> {
    /// Applies one message to the table. Returns whether it took the last
    /// reference off its slot; the slot's count is zero then, and with
    /// `clear` its item is removed.
    ///
    /// A message that cannot be applied changes nothing in the table and is
    /// counted as passed over.
    pub fn apply_one(&mut self, msg: Message, clear: bool) -> (landed: bool)
        requires
            old(self).wf(),
        ensures
            final(self).wf(),
            final(self).channel() == old(self).channel(),
            final(self)@.last_generation == old(self)@.last_generation,
            final(self)@.entries =~= Seq::new(
                old(self)@.entries.len(),
                |i: int| old(self)@.entries[i].step(msg, i as nat, clear),
            ),
            final(self)@.passed_over == saturate(
                old(self)@.passed_over + (if old(self)@.passes_over(Seq::empty(), msg, clear) {
                    1nat
                } else {
                    0nat
                }),
            ),
            landed == old(self)@.lands_on_zero(Seq::empty(), msg, clear),
            landed ==> final(self)@.entries[msg.slot()@ as int].ref_count == 0,
    {
        let index: usize = match msg {
            Message::New(slot) => slot.to_usize(),
            Message::Drop(slot) => slot.to_usize(),
        };
        if index >= self.entries.len() {
            self.pass_over();
            return false;
        }
        let mut landed = false;
        match msg {
            Message::New(_) => {
                if self.entries[index].ref_count < RefCount::MAX {
                    self.entries[index].ref_count += 1;
                } else {
                    self.pass_over();
                }
            },
            Message::Drop(_) => {
                if self.entries[index].ref_count > 0 {
                    self.entries[index].ref_count -= 1;
                    if self.entries[index].ref_count == 0 {
                        landed = true;
                        if clear {
                            self.entries[index].data = None;
                        }
                    }
                } else {
                    self.pass_over();
                }
            },
        }
        proof {
            let before = old(self)@;
            let after = self@;
            assert forall|i: int| 0 <= i < after.entries.len() implies {
                &&& (#[trigger] after.entries[i]).generation == before.entries[i].generation
                &&& after.entries[i].ref_count <= RefCount::MAX
            } by {
                assert(after.entries[i] == before.entries[i].step(msg, i as nat, clear));
            }
        }
        landed
    }

    /// Counts one message as passed over.
    fn pass_over(&mut self)
        ensures
            final(self).entries == old(self).entries,
            final(self).last_gen == old(self).last_gen,
            final(self).rx == old(self).rx,
            final(self).tx == old(self).tx,
            final(self).passed_over as nat == saturate(old(self).passed_over as nat + 1),
    {
        if self.passed_over < u64::MAX {
            self.passed_over += 1;
        }
    }

    /// Applies the reference-count messages `msgs` to the table, oldest
    /// first, and returns the slots whose count landed on zero, in the order
    /// in which they did. With `clear` the item of such a slot is removed at
    /// that moment; without, every item stays.
    ///
    /// A message that cannot be applied is passed over and counted (see
    /// [`Pool::passed_over`]): one for a slot that the table does not have, a
    /// `New` for a count that is at its largest, a `Drop` for a count that is
    /// zero.
    pub fn apply_messages(&mut self, msgs: &VecDeque<Message>, clear: bool) -> (zeroed: Vec<Slot>)
        requires
            old(self).wf(),
        ensures
            final(self).wf(),
            final(self).channel() == old(self).channel(),
            final(self)@ == old(self)@.apply(msgs@, clear),
            zeroed@ == old(self)@.zeroed(msgs@, clear),
    {
        let mut zeroed: Vec<Slot> = Vec::new();
        let mut k: usize = 0;
        proof {
            old(self)@.lemma_apply_empty(clear);
            assert(msgs@.take(0) =~= Seq::empty());
        }
        while k < msgs.len()
            invariant
                0 <= k <= msgs.len(),
                self.wf(),
                self.channel() == old(self).channel(),
                self@ == old(self)@.apply(msgs@.take(k as int), clear),
                zeroed@ == old(self)@.zeroed(msgs@.take(k as int), clear),
            decreases msgs.len() - k,
        {
            let msg = msgs[k];
            let ghost before = self@;
            let ghost done = msgs@.take(k as int);
            let landed = self.apply_one(msg, clear);
            proof {
                assert(msgs@.take(k + 1) =~= done.push(msg));
                assert(done.push(msg).drop_last() =~= done);
                old(self)@.lemma_apply_push(done, msg, clear);
                assert(self@.entries =~= old(self)@.apply(done.push(msg), clear).entries);
                assert(msg.slot()@ < before.entries.len() ==> before.entries[msg.slot()@ as int]
                    == old(self)@.entries[msg.slot()@ as int].settle(done, msg.slot()@, clear));
                assert(landed == old(self)@.lands_on_zero(done, msg, clear));
                assert(before.passes_over(Seq::empty(), msg, clear) == old(self)@.passes_over(
                    done,
                    msg,
                    clear,
                ));
            }
            if landed {
                match msg {
                    Message::New(slot) => {},
                    Message::Drop(slot) => {
                        zeroed.push(slot);
                    },
                }
            }
            k += 1;
        }
        proof {
            assert(msgs@.take(k as int) =~= msgs@);
        }
        zeroed
    }

    /// Updates reference counts with everything that is queued at this
    /// moment, and returns the slots whose count reached zero so that the
    /// caller can visit them. No item is removed: see
    /// [`Pool::invalidate_unreferenced`].
    ///
    /// A slot is reported once for each time its count landed on zero, in
    /// the order of the landings, also where a later message raised the
    /// count again. To act at the moment of a landing, while the count is
    /// zero, step through the queue with [`Pool::next_message`] and
    /// [`Pool::apply_one`].
    ///
    /// What a handle queues during or after the call waits for the next one.
    pub fn sync_refcounts(&mut self) -> (zeroed: Vec<Slot>)
        requires
            old(self).wf(),
        ensures
            final(self).wf(),
            final(self).channel() == old(self).channel(),
            exists|msgs: Seq<Message>|
                {
                    &&& final(self)@ == #[trigger] old(self)@.apply(msgs, false)
                    &&& zeroed@ == old(self)@.zeroed(msgs, false)
                },
            final(self)@.last_generation == old(self)@.last_generation,
            final(self)@.entries.len() == old(self)@.entries.len(),
            forall|i: int|
                0 <= i < old(self)@.entries.len() ==> ({
                    let after = #[trigger] final(self)@.entries[i];
                    &&& after.generation == old(self)@.entries[i].generation
                    &&& after.item == old(self)@.entries[i].item
                }),
    {
        let msgs = self.rx.recv_all();
        proof {
            self@.lemma_apply_keeps(msgs@, false);
        }
        self.apply_messages(&msgs, false)
    }

    /// Updates reference counts with everything that is queued at this
    /// moment and invalidates unreferenced items: an item is removed the
    /// moment its count lands on zero.
    ///
    /// What a handle queues during or after the call waits for the next one.
    pub fn sync_refcounts_and_invalidate(&mut self)
        requires
            old(self).wf(),
        ensures
            final(self).wf(),
            final(self).channel() == old(self).channel(),
            exists|msgs: Seq<Message>| final(self)@ == #[trigger] old(self)@.apply(msgs, true),
            final(self)@.last_generation == old(self)@.last_generation,
            final(self)@.entries.len() == old(self)@.entries.len(),
            forall|i: int|
                0 <= i < old(self)@.entries.len() ==> ({
                    let after = #[trigger] final(self)@.entries[i];
                    &&& after.generation == old(self)@.entries[i].generation
                    &&& (after.item == old(self)@.entries[i].item || after.item is None)
                }),
    {
        let msgs = self.rx.recv_all();
        proof {
            self@.lemma_apply_keeps(msgs@, true);
        }
        let _ = self.apply_messages(&msgs, true);
    }

    /// Invalidates an entry with zero reference count manually. Returns
    /// whether there was an item to remove.
    pub fn invalidate_unreferenced(&mut self, slot: Slot) -> (removed: bool)
        requires
            old(self).wf(),
            slot@ < old(self)@.entries.len(),
            old(self)@.entries[slot@ as int].ref_count == 0,
        ensures
            final(self).wf(),
            final(self).channel() == old(self).channel(),
            removed == old(self)@.occupied(slot@ as int),
            final(self)@ == old(self)@.without_item(slot@),
    {
        let index: usize = slot.to_usize();
        if self.entries[index].data.is_none() {
            assert(self@.entries =~= self@.without_item(slot@).entries);
            return false;
        }
        self.entries[index].data = None;
        assert(self@.entries =~= old(self)@.without_item(slot@).entries);
        true
    }
}

/// # ----- Handle-based accessors -----
impl<T> Pool<T> {
    /// Scans the table in ascending order for the first slot without an
    /// item. `None` when every slot holds one.
    pub fn find_empty_slot(&self) -> (found: Option<usize>)
        ensures
            self@.is_first_free(self@.first_free()),
            (match found {
                Some(i) => i < self@.entries.len() && self@.first_free() == i,
                None => self@.first_free() == self@.entries.len(),
            }),
    {
        let mut i: usize = 0;
        while i < self.entries.len()
            invariant
                0 <= i <= self.entries.len(),
                forall|j: int| 0 <= j < i ==> self@.occupied(j),
            decreases self.entries.len() - i,
        {
            if self.entries[i].data.is_none() {
                proof {
                    self@.lemma_first_free_unique(i as int);
                }
                return Some(i);
            }
            i += 1;
        }
        proof {
            self@.lemma_first_free_unique(i as int);
        }
        None
    }

    /// Inserts the item and returns a strong [`Handle`] for it.
    ///
    /// The item gets a fresh generation and a reference count of one, which
    /// stands for the handle returned. It goes into the first free slot, or
    /// into a new slot at the end of the table when none is free.
    ///
    /// The generation counter must not be exhausted.
    pub fn add(&mut self, item: T) -> (handle: Handle<T>)
        requires
            old(self).wf(),
            old(self)@.last_generation < u32::MAX,
        ensures
            final(self).wf(),
            final(self).channel() == old(self).channel(),
            final(self)@ == old(self)@.allocate(item),
            old(self)@.is_first_free(old(self)@.first_free()),
            handle.spec_slot()@ == old(self)@.first_free(),
            handle.generation() == old(self)@.last_generation + 1,
            handle.channel() == final(self).channel(),
    {
        proof {
            old(self)@.lemma_allocate_wf(item);
            old(self)@.lemma_first_free_exists(0);
        }
        let gen: u32 = self.last_gen + 1;
        let entry = PoolEntry { data: Some(item), gen, ref_count: 1 };
        let slot: usize = match self.find_empty_slot() {
            Some(i) => {
                self.entries[i] = entry;
                i
            },
            None => {
                let i: usize = self.entries.len();
                self.entries.push(entry);
                i
            },
        };
        self.last_gen = gen;
        assert(self@.entries =~= old(self)@.allocate(item).entries);
        Handle::new(Slot::from_index(slot as u32), gen, self.tx.clone())
    }

    /// Tries to get a reference from a [`WeakHandle`]. `None` when the slot
    /// has been given to another item, when its item has been removed, or
    /// when the table has no such slot.
    pub fn get(&self, weak: &WeakHandle<T>) -> (item: Option<&T>)
        ensures
            (match item {
                Some(x) => self@.lookup(weak.spec_slot()@, weak.generation()) == Some(*x),
                None => self@.lookup(weak.spec_slot()@, weak.generation()) is None,
            }),
    {
        let index: usize = weak.slot().to_usize();
        if index >= self.entries.len() {
            return None;
        }
        let entry = &self.entries[index];
        if entry.gen == weak.gen() {
            entry.data.as_ref()
        } else {
            None
        }
    }

    /// Tries to get a mutable reference from a [`WeakHandle`]. `None` in the
    /// cases in which [`Pool::get`] returns `None`.
    pub fn get_mut(&mut self, weak: &WeakHandle<T>) -> (item: Option<&mut T>)
        requires
            old(self).wf(),
        ensures
            final(self).wf(),
            final(self).channel() == old(self).channel(),
            (match item {
                Some(x) => {
                    &&& old(self)@.lookup(weak.spec_slot()@, weak.generation()) == Some(*x)
                    &&& final(self)@ == old(self)@.with_item(weak.spec_slot()@, *final(x))
                },
                None => {
                    &&& old(self)@.lookup(weak.spec_slot()@, weak.generation()) is None
                    &&& final(self)@ == old(self)@
                },
            }),
    {
        let index: usize = weak.slot().to_usize();
        if index >= self.entries.len() {
            return None;
        }
        if self.entries[index].gen != weak.gen() {
            return None;
        }
        self.get_mut_by_slot(weak.slot())
    }

    /// The item that a strong handle refers to.
    ///
    /// The handle's slot must hold an item: while a strong handle is counted
    /// its item is not removed, so an empty slot here means that reference
    /// counting was misused.
    pub fn index(&self, handle: &Handle<T>) -> (item: &T)
        requires
            self@.occupied(handle.spec_slot()@ as int),
        ensures
            self@.item_at(handle.spec_slot()@) == Some(*item),
    {
        let entry = &self.entries[handle.slot().to_usize()];
        entry.data.as_ref().unwrap()
    }

    /// The item that a strong handle refers to, mutably. The handle's slot
    /// must hold an item, as for [`Pool::index`].
    pub fn index_mut(&mut self, handle: &Handle<T>) -> (item: &mut T)
        requires
            old(self).wf(),
            old(self)@.occupied(handle.spec_slot()@ as int),
        ensures
            final(self).wf(),
            final(self).channel() == old(self).channel(),
            old(self)@.item_at(handle.spec_slot()@) == Some(*item),
            final(self)@ == old(self)@.with_item(handle.spec_slot()@, *final(item)),
    {
        self.get_mut_by_slot(handle.slot()).unwrap()
    }
}

/// # ----- Slot-based accessors -----
impl<T> Pool<T> {
    /// Tries to upgrade the weak handle to a strong handle. Fails if the
    /// slot has been given to another item or IF THE REF COUNT IS ALREADY
    /// ZERO. On success a `New` message is queued for the slot.
    ///
    /// The weak handle's slot must be one of the table's.
    pub fn upgrade(&self, weak: &WeakHandle<T>) -> (strong: Option<Handle<T>>)
        requires
            self.wf(),
            weak.spec_slot()@ < self@.entries.len(),
        ensures
            strong is Some <==> ({
                &&& self@.entries[weak.spec_slot()@ as int].ref_count != 0
                &&& self@.entries[weak.spec_slot()@ as int].generation == weak.generation()
            }),
            (match strong {
                Some(handle) => {
                    &&& handle.spec_slot() == weak.spec_slot()
                    &&& handle.generation() == weak.generation()
                    &&& handle.channel() == self.channel()
                },
                None => true,
            }),
    {
        let entry = &self.entries[weak.slot().to_usize()];
        if entry.ref_count == 0 {
            return None;
        }
        if entry.gen == weak.gen() {
            let handle = Handle::new(weak.slot(), weak.gen(), self.tx.clone());
            self.tx.send(handle.new_message());
            Some(handle)
        } else {
            None
        }
    }

    /// The item in `slot`, whatever its generation. `None` when the slot
    /// holds no item or the table has no such slot.
    pub fn get_by_slot(&self, slot: Slot) -> (item: Option<&T>)
        ensures
            (match item {
                Some(x) => self@.item_at(slot@) == Some(*x),
                None => self@.item_at(slot@) is None,
            }),
    {
        let index: usize = slot.to_usize();
        if index >= self.entries.len() {
            return None;
        }
        self.entries[index].data.as_ref()
    }

    /// The item in `slot`, mutably. `None` in the cases in which
    /// [`Pool::get_by_slot`] returns `None`.
    pub fn get_mut_by_slot(&mut self, slot: Slot) -> (item: Option<&mut T>)
        requires
            old(self).wf(),
        ensures
            final(self).wf(),
            final(self).channel() == old(self).channel(),
            (match item {
                Some(x) => {
                    &&& old(self)@.item_at(slot@) == Some(*x)
                    &&& final(self)@ == old(self)@.with_item(slot@, *final(x))
                },
                None => {
                    &&& old(self)@.item_at(slot@) is None
                    &&& final(self)@ == old(self)@
                },
            }),
    {
        let index: usize = slot.to_usize();
        if index >= self.entries.len() {
            return None;
        }
        if self.entries[index].data.is_none() {
            return None;
        }
        self.item_mut(index)
    }

    /// The item of the occupied entry at `index`, mutably.
    fn item_mut(&mut self, index: usize) -> (item: Option<&mut T>)
        requires
            old(self).wf(),
            old(self)@.occupied(index as int),
        ensures
            final(self).channel() == old(self).channel(),
            final(self).connected(),
            item is Some,
            old(self)@.entries[index as int].item == Some(*item.unwrap()),
            final(self)@.last_generation == old(self)@.last_generation,
            final(self)@.passed_over == old(self)@.passed_over,
            final(self)@.entries =~= old(self)@.with_item(
                index as nat,
                *final(item.unwrap()),
            ).entries,
            final(self)@.wf(),
    {
        proof {
            assert forall|x: T| (#[trigger] self@.with_item(index as nat, x)).wf() by {
                self@.lemma_with_item_wf(index as nat, x);
            }
        }
        let entry = self.entry_mut(index);
        entry.data_mut()
    }

    /// The entry at `index`, mutably.
    fn entry_mut(&mut self, index: usize) -> (entry: &mut PoolEntry<T>)
        requires
            index < old(self).entries@.len(),
        ensures
            *entry == old(self).entries@[index as int],
            final(self).entries@ == old(self).entries@.update(index as int, *final(entry)),
            final(self).last_gen == old(self).last_gen,
            final(self).passed_over == old(self).passed_over,
            final(self).tx == old(self).tx,
            final(self).rx == old(self).rx,
    {
        &mut self.entries[index]
    }

    /// The items in two slots, both mutably. `None` when either slot holds
    /// no item or is not in the table.
    ///
    /// The two slots must differ: one item cannot be borrowed mutably twice.
    pub fn get2_mut_by_slot(&mut self, s0: Slot, s1: Slot) -> (items: Option<(&mut T, &mut T)>)
        requires
            old(self).wf(),
            s0 != s1,
        ensures
            final(self).wf(),
            final(self).channel() == old(self).channel(),
            (match items {
                Some(pair) => {
                    &&& old(self)@.item_at(s0@) == Some(*pair.0)
                    &&& old(self)@.item_at(s1@) == Some(*pair.1)
                    &&& final(self)@ == old(self)@.with_item(s0@, *final(pair.0)).with_item(
                        s1@,
                        *final(pair.1),
                    )
                },
                None => {
                    &&& old(self)@.item_at(s0@) is None || old(self)@.item_at(s1@) is None
                    &&& final(self)@ == old(self)@
                },
            }),
    {
        let i0: usize = s0.to_usize();
        let i1: usize = s1.to_usize();
        if i0 >= self.entries.len() || i1 >= self.entries.len() {
            return None;
        }
        if self.entries[i0].data.is_none() || self.entries[i1].data.is_none() {
            return None;
        }
        proof {
            Slot::lemma_view(s0, s1);
        }
        if i0 < i1 {
            let (d0, d1) = self.item_pair_mut(i0, i1);
            Some((d0, d1))
        } else {
            let (d1, d0) = self.item_pair_mut(i1, i0);
            Some((d0, d1))
        }
    }

    /// The items of the occupied entries at `lo` and `hi`, both mutably.
    fn item_pair_mut(&mut self, lo: usize, hi: usize) -> (pair: (&mut T, &mut T))
        requires
            old(self).wf(),
            lo < hi,
            old(self)@.occupied(lo as int),
            old(self)@.occupied(hi as int),
        ensures
            final(self).channel() == old(self).channel(),
            final(self).connected(),
            old(self)@.entries[lo as int].item == Some(*pair.0),
            old(self)@.entries[hi as int].item == Some(*pair.1),
            final(self)@.last_generation == old(self)@.last_generation,
            final(self)@.passed_over == old(self)@.passed_over,
            final(self)@.entries =~= old(self)@.with_item(lo as nat, *final(pair.0)).with_item(
                hi as nat,
                *final(pair.1),
            ).entries,
            final(self)@.entries =~= old(self)@.with_item(hi as nat, *final(pair.1)).with_item(
                lo as nat,
                *final(pair.0),
            ).entries,
            final(self)@.wf(),
    {
        proof {
            assert forall|x: T, y: T|
                (#[trigger] self@.with_item(lo as nat, x).with_item(hi as nat, y)).wf() by {
                self@.lemma_with_item_wf(lo as nat, x);
                self@.with_item(lo as nat, x).lemma_with_item_wf(hi as nat, y);
            }
        }
        let (e0, e1) = self.entry_pair_mut(lo, hi);
        (e0.data_mut().unwrap(), e1.data_mut().unwrap())
    }

    /// The entries at `lo` and `hi`, both mutably.
    fn entry_pair_mut(&mut self, lo: usize, hi: usize) -> (pair: (
        &mut PoolEntry<T>,
        &mut PoolEntry<T>,
    ))
        requires
            lo < hi < old(self).entries@.len(),
        ensures
            *pair.0 == old(self).entries@[lo as int],
            *pair.1 == old(self).entries@[hi as int],
            final(self).entries@ =~= old(self).entries@.update(lo as int, *final(pair.0)).update(
                hi as int,
                *final(pair.1),
            ),
            final(self).last_gen == old(self).last_gen,
            final(self).passed_over == old(self).passed_over,
            final(self).tx == old(self).tx,
            final(self).rx == old(self).rx,
    {
        let (below, from_hi) = self.entries.as_mut_slice().split_at_mut(hi);
        let (_, from_lo) = below.split_at_mut(lo);
        (from_lo.first_mut().unwrap(), from_hi.first_mut().unwrap())
    }
}

/// # ----- Iterators -----
impl<T> Pool<T> {
    /// Returns slots of existing items, in ascending order. NOTE: It contains
    /// unreferenced items as long as they're not yet removed.
    pub fn slots(&self) -> (slots: Vec<Slot>)
        requires
            self.wf(),
        ensures
            slots@.map_values(|s: Slot| s@ as int) == self@.live_slots(),
    {
        let mut slots: Vec<Slot> = Vec::new();
        let mut i: usize = 0;
        while i < self.entries.len()
            invariant
                0 <= i <= self.entries.len(),
                self.wf(),
                slots@.map_values(|s: Slot| s@ as int) + slots_from(self@.entries, i as int)
                    =~= self@.live_slots(),
            decreases self.entries.len() - i,
        {
            if self.entries[i].data.is_some() {
                let ghost before = slots@;
                slots.push(Slot::from_index(i as u32));
                assert(slots@.map_values(|s: Slot| s@ as int) =~= before.map_values(
                    |s: Slot| s@ as int,
                ).push(i as int));
            }
            i += 1;
        }
        slots
    }

    /// Returns an iterator of valid items in this pool
    pub fn iter(&self) -> (iter: Iter<'_, T>)
        ensures
            iter.remaining() == self@.live_items(),
    {
        Iter::new(&self.entries)
    }

    /// Returns mutable references to the valid items in this pool, in slot
    /// order. What the caller writes through them is what the pool holds
    /// afterwards.
    pub fn iter_mut(&mut self) -> (items: IterMut<'_, T>)
        requires
            old(self).wf(),
        ensures
            final(self).wf(),
            final(self).channel() == old(self).channel(),
            items@.map_values(|x: &mut T| *x) == old(self)@.live_items(),
            final(self)@ == old(self)@.refill(items@.map_values(|x: &mut T| *final(x))),
    {
        proof {
            assert forall|vals: Seq<T>| (#[trigger] self@.refill(vals)).wf() by {
                self@.lemma_refill_wf(vals);
            }
        }
        let mut items: Vec<&mut T> = Vec::new();
        let mut rest: &mut [PoolEntry<T>] = self.entries.as_mut_slice();
        let mut i: usize = 0;
        while rest.len() > 0
            invariant
                i + rest@.len() == old(self).entries@.len(),
                old(self).wf(),
                forall|vals: Seq<T>| (#[trigger] old(self)@.refill(vals)).wf(),
                rest@ == old(self).entries@.skip(i as int),
                items@.map_values(|x: &mut T| *x) + items_from(old(self)@.entries, i as int)
                    =~= old(self)@.live_items(),
                entries_view(after_borrow(self.entries)@) =~= refill(
                    old(self)@.entries.take(i as int),
                    items@.map_values(|x: &mut T| *final(x)),
                ) + entries_view(final(rest)@),
            decreases rest@.len(),
        {
            let ghost before = items@;
            let (head, tail) = rest.split_at_mut(1);
            rest = tail;
            let entry = head.first_mut().unwrap();
            proof {
                assert(*entry == old(self).entries@[i as int]);
                assert(old(self)@.entries.take(i + 1).drop_last() =~= old(self)@.entries.take(
                    i as int,
                ));
                assert(old(self)@.entries.take(i + 1).last() == old(self)@.entries[i as int]);
                assert(rest@ =~= old(self).entries@.skip(i + 1));
            }
            match entry.data.as_mut() {
                Some(x) => {
                    items.push(x);
                    proof {
                        assert(items@.map_values(|x: &mut T| *final(x)).drop_last()
                            =~= before.map_values(|x: &mut T| *final(x)));
                        assert(items@.map_values(|x: &mut T| *x) =~= before.map_values(
                            |x: &mut T| *x,
                        ).push(old(self)@.entries[i as int].item->0));
                    }
                },
                None => {},
            }
            i += 1;
        }
        proof {
            assert(old(self)@.entries.take(i as int) =~= old(self)@.entries);
            assert(entries_view(after_borrow(self.entries)@) =~= old(self)@.refill(
                items@.map_values(|x: &mut T| *final(x)),
            ).entries);
        }
        items
    }

    /// Returns `(Slot, &T)` for every valid item, in ascending slot order.
    pub fn enumerate_items(&self) -> (items: Vec<(Slot, &T)>)
        requires
            self.wf(),
        ensures
            items@.map_values(|p: (Slot, &T)| p.0@ as int) == self@.live_slots(),
            items@.map_values(|p: (Slot, &T)| *p.1) == self@.live_items(),
    {
        let mut items: Vec<(Slot, &T)> = Vec::new();
        let mut i: usize = 0;
        while i < self.entries.len()
            invariant
                0 <= i <= self.entries.len(),
                self.wf(),
                items@.map_values(|p: (Slot, &T)| p.0@ as int) + slots_from(self@.entries, i as int)
                    =~= self@.live_slots(),
                items@.map_values(|p: (Slot, &T)| *p.1) + items_from(self@.entries, i as int)
                    =~= self@.live_items(),
            decreases self.entries.len() - i,
        {
            match &self.entries[i].data {
                Some(data) => {
                    let ghost before = items@;
                    items.push((Slot::from_index(i as u32), data));
                    assert(items@.map_values(|p: (Slot, &T)| p.0@ as int) =~= before.map_values(
                        |p: (Slot, &T)| p.0@ as int,
                    ).push(i as int));
                    assert(items@.map_values(|p: (Slot, &T)| *p.1) =~= before.map_values(
                        |p: (Slot, &T)| *p.1,
                    ).push(*data));
                },
                None => {},
            }
            i += 1;
        }
        items
    }

    /// Returns `(Slot, &mut T)` for every valid item, in ascending slot
    /// order. What the caller writes through the references is what the pool
    /// holds afterwards.
    pub fn enumerate_items_mut(&mut self) -> (items: Vec<(Slot, &mut T)>)
        requires
            old(self).wf(),
        ensures
            final(self).wf(),
            final(self).channel() == old(self).channel(),
            items@.map_values(|p: (Slot, &mut T)| p.0@ as int) == old(self)@.live_slots(),
            items@.map_values(|p: (Slot, &mut T)| *p.1) == old(self)@.live_items(),
            final(self)@ == old(self)@.refill(items@.map_values(|p: (Slot, &mut T)| *final(p.1))),
    {
        proof {
            assert forall|vals: Seq<T>| (#[trigger] self@.refill(vals)).wf() by {
                self@.lemma_refill_wf(vals);
            }
        }
        let mut items: Vec<(Slot, &mut T)> = Vec::new();
        let mut rest: &mut [PoolEntry<T>] = self.entries.as_mut_slice();
        let mut i: usize = 0;
        while rest.len() > 0
            invariant
                i + rest@.len() == old(self).entries@.len(),
                old(self).wf(),
                forall|vals: Seq<T>| (#[trigger] old(self)@.refill(vals)).wf(),
                rest@ == old(self).entries@.skip(i as int),
                items@.map_values(|p: (Slot, &mut T)| p.0@ as int) + slots_from(
                    old(self)@.entries,
                    i as int,
                ) =~= old(self)@.live_slots(),
                items@.map_values(|p: (Slot, &mut T)| *p.1) + items_from(
                    old(self)@.entries,
                    i as int,
                ) =~= old(self)@.live_items(),
                entries_view(after_borrow(self.entries)@) =~= refill(
                    old(self)@.entries.take(i as int),
                    items@.map_values(|p: (Slot, &mut T)| *final(p.1)),
                ) + entries_view(final(rest)@),
            decreases rest@.len(),
        {
            let ghost before = items@;
            let (head, tail) = rest.split_at_mut(1);
            rest = tail;
            let entry = head.first_mut().unwrap();
            proof {
                assert(*entry == old(self).entries@[i as int]);
                assert(old(self)@.entries.take(i + 1).drop_last() =~= old(self)@.entries.take(
                    i as int,
                ));
                assert(old(self)@.entries.take(i + 1).last() == old(self)@.entries[i as int]);
                assert(rest@ =~= old(self).entries@.skip(i + 1));
            }
            match entry.data.as_mut() {
                Some(x) => {
                    items.push((Slot::from_index(i as u32), x));
                    proof {
                        assert(items@.map_values(|p: (Slot, &mut T)| *final(p.1)).drop_last()
                            =~= before.map_values(|p: (Slot, &mut T)| *final(p.1)));
                        assert(items@.map_values(|p: (Slot, &mut T)| p.0@ as int)
                            =~= before.map_values(|p: (Slot, &mut T)| p.0@ as int).push(i as int));
                        assert(items@.map_values(|p: (Slot, &mut T)| *p.1) =~= before.map_values(
                            |p: (Slot, &mut T)| *p.1,
                        ).push(old(self)@.entries[i as int].item->0));
                    }
                },
                None => {},
            }
            i += 1;
        }
        proof {
            assert(old(self)@.entries.take(i as int) =~= old(self)@.entries);
            assert(entries_view(after_borrow(self.entries)@) =~= old(self)@.refill(
                items@.map_values(|p: (Slot, &mut T)| *final(p.1)),
            ).entries);
        }
        items
    }
}

} // verus!
