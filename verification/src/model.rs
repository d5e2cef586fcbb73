//! The pool as plain values: what each slot holds, and what allocation and
//! the queued reference-count messages do to it.

use crate::handle::{Message, RefCount, Slot};
use vstd::prelude::*;

verus! {

/// What one slot of the table holds.
pub struct EntryView<T> {
    /// The item, absent once the slot is invalidated.
    pub item: Option<T>,
    /// Generation of the item that last occupied the slot.
    pub generation: nat,
    /// Strong handles counted for the current occupant, as of the last
    /// synchronization.
    pub ref_count: nat,
}

/// The table of a pool and its generation counter.
pub struct PoolView<T> {
    pub entries: Seq<EntryView<T>>,
    /// The generation given out last; zero before the first allocation.
    pub last_generation: nat,
    /// How many messages the pool has passed over because they could not be
    /// applied. The count stops at the largest `u64`.
    pub passed_over: nat,
}

/// `n`, or the largest `u64` where `n` is beyond it.
pub open spec fn saturate(n: nat) -> nat {
    if n > u64::MAX {
        u64::MAX as nat
    } else {
        n
    }
}

impl<T> EntryView<T> {
    /// The entry at position `index` after one message.
    ///
    /// A message for another slot leaves the entry as it is. `New` adds one to
    /// the count and `Drop` takes one off; when a `Drop` lands on zero and
    /// `clear` is set, the item is removed. A message that cannot be applied
    /// (a `New` at the largest count, a `Drop` at zero) is passed over.
    pub open spec fn step(self, msg: Message, index: nat, clear: bool) -> Self {
        match msg {
            Message::New(slot) => if slot@ == index && self.ref_count < RefCount::MAX {
                EntryView { ref_count: self.ref_count + 1, ..self }
            } else {
                self
            },
            Message::Drop(slot) => if slot@ == index && self.ref_count > 0 {
                EntryView {
                    ref_count: (self.ref_count - 1) as nat,
                    item: if self.ref_count == 1 && clear {
                        None
                    } else {
                        self.item
                    },
                    ..self
                }
            } else {
                self
            },
        }
    }

    /// The entry at position `index` after the messages `msgs`, applied
    /// oldest first.
    pub open spec fn settle(self, msgs: Seq<Message>, index: nat, clear: bool) -> Self
        decreases msgs.len(),
    {
        if msgs.len() == 0 {
            self
        } else {
            self.settle(msgs.drop_last(), index, clear).step(msgs.last(), index, clear)
        }
    }
}

/// The occupied slots of `entries` from `start` on, in ascending order.
pub open spec fn slots_from<T>(entries: Seq<EntryView<T>>, start: int) -> Seq<int>
    decreases entries.len() - start,
{
    if start < 0 || start >= entries.len() {
        Seq::empty()
    } else if entries[start].item is Some {
        seq![start] + slots_from(entries, start + 1)
    } else {
        slots_from(entries, start + 1)
    }
}

/// The items of `entries` from `start` on, in slot order. Slots without an
/// item are skipped.
pub open spec fn items_from<T>(entries: Seq<EntryView<T>>, start: int) -> Seq<T>
    decreases entries.len() - start,
{
    if start < 0 || start >= entries.len() {
        Seq::empty()
    } else if entries[start].item is Some {
        seq![entries[start].item->0] + items_from(entries, start + 1)
    } else {
        items_from(entries, start + 1)
    }
}

/// `entries` with the items of its occupied slots replaced, in slot order, by
/// `items`. Slots without an item stay without; when `items` runs out, the
/// occupied slots left over keep what they hold.
pub open spec fn refill<T>(entries: Seq<EntryView<T>>, items: Seq<T>) -> Seq<EntryView<T>>
    decreases entries.len(),
{
    if entries.len() == 0 {
        Seq::empty()
    } else if entries.last().item is Some && items.len() > 0 {
        refill(entries.drop_last(), items.drop_last()).push(
            EntryView { item: Some(items.last()), ..entries.last() },
        )
    } else {
        refill(entries.drop_last(), items).push(entries.last())
    }
}

/// Replacing items changes neither the number of slots nor which of them are
/// occupied, nor any generation or count.
pub proof fn lemma_refill_keeps<T>(entries: Seq<EntryView<T>>, items: Seq<T>)
    ensures
        refill(entries, items).len() == entries.len(),
        forall|i: int|
            0 <= i < entries.len() ==> ({
                let after = #[trigger] refill(entries, items)[i];
                &&& after.generation == entries[i].generation
                &&& after.ref_count == entries[i].ref_count
                &&& (after.item is Some <==> entries[i].item is Some)
            }),
    decreases entries.len(),
{
    if entries.len() > 0 {
        if entries.last().item is Some && items.len() > 0 {
            lemma_refill_keeps(entries.drop_last(), items.drop_last());
        } else {
            lemma_refill_keeps(entries.drop_last(), items);
        }
    }
}

impl<T> PoolView<T> {
    /// The table's invariant: every generation in use was given out by the
    /// counter, no two slots carry the same generation, and the counts and
    /// the counter fit their machine types.
    pub open spec fn wf(self) -> bool {
        &&& self.entries.len() <= self.last_generation <= u32::MAX
        &&& self.passed_over <= u64::MAX
        &&& forall|i: int|
            0 <= i < self.entries.len() ==> 1 <= (#[trigger] self.entries[i]).generation
                <= self.last_generation
        &&& forall|i: int|
            0 <= i < self.entries.len() ==> (#[trigger] self.entries[i]).ref_count <= RefCount::MAX
        &&& forall|i: int, j: int|
            0 <= i < j < self.entries.len() ==> (#[trigger] self.entries[i]).generation != (
            #[trigger] self.entries[j]).generation
    }

    /// Whether the slot at `i` exists and holds an item.
    pub open spec fn occupied(self, i: int) -> bool {
        0 <= i < self.entries.len() && self.entries[i].item is Some
    }

    /// Whether `i` is where the next item goes: the lowest slot without an
    /// item, or one past the table when every slot holds one.
    pub open spec fn is_first_free(self, i: int) -> bool {
        &&& 0 <= i <= self.entries.len()
        &&& !self.occupied(i)
        &&& forall|j: int| 0 <= j < i ==> self.occupied(j)
    }

    /// Where the next item goes.
    pub open spec fn first_free(self) -> int {
        choose|i: int| self.is_first_free(i)
    }

    /// The pool after `item` is added: a fresh generation, one reference, in
    /// the first free slot or in a new slot at the end.
    pub open spec fn allocate(self, item: T) -> Self {
        let slot = self.first_free();
        let entry = EntryView {
            item: Some(item),
            generation: self.last_generation + 1,
            ref_count: 1,
        };
        PoolView {
            entries: if slot < self.entries.len() {
                self.entries.update(slot, entry)
            } else {
                self.entries.push(entry)
            },
            last_generation: self.last_generation + 1,
            passed_over: self.passed_over,
        }
    }

    /// The pool after the messages `msgs`, applied oldest first. With `clear`
    /// an item is removed when its count lands on zero.
    pub open spec fn apply(self, msgs: Seq<Message>, clear: bool) -> Self {
        PoolView {
            entries: Seq::new(
                self.entries.len(),
                |i: int| self.entries[i].settle(msgs, i as nat, clear),
            ),
            last_generation: self.last_generation,
            passed_over: saturate(self.passed_over + self.passed(msgs, clear)),
        }
    }

    /// Whether `msg`, coming after `msgs`, cannot be applied: it is for a
    /// slot that the table does not have, or it is a `New` for a count at its
    /// largest, or a `Drop` for a count at zero.
    pub open spec fn passes_over(self, msgs: Seq<Message>, msg: Message, clear: bool) -> bool {
        let slot = msg.slot()@;
        slot >= self.entries.len() || (match msg {
            Message::New(_) => self.entries[slot as int].settle(msgs, slot, clear).ref_count
                >= RefCount::MAX,
            Message::Drop(_) => self.entries[slot as int].settle(msgs, slot, clear).ref_count
                == 0,
        })
    }

    /// How many of `msgs` cannot be applied, each in the state that the
    /// messages before it leave.
    pub open spec fn passed(self, msgs: Seq<Message>, clear: bool) -> nat
        decreases msgs.len(),
    {
        if msgs.len() == 0 {
            0
        } else if self.passes_over(msgs.drop_last(), msgs.last(), clear) {
            self.passed(msgs.drop_last(), clear) + 1
        } else {
            self.passed(msgs.drop_last(), clear)
        }
    }

    /// The slots whose count `msgs` brings to zero, one for each landing, in
    /// the order of the messages.
    pub open spec fn zeroed(self, msgs: Seq<Message>, clear: bool) -> Seq<Slot>
        decreases msgs.len(),
    {
        if msgs.len() == 0 {
            Seq::empty()
        } else {
            let before = self.zeroed(msgs.drop_last(), clear);
            if self.lands_on_zero(msgs.drop_last(), msgs.last(), clear) {
                before.push(msgs.last().slot())
            } else {
                before
            }
        }
    }

    /// Whether `msg`, coming after `msgs`, takes the last reference off its
    /// slot.
    pub open spec fn lands_on_zero(self, msgs: Seq<Message>, msg: Message, clear: bool) -> bool {
        &&& msg is Drop
        &&& msg.slot()@ < self.entries.len()
        &&& self.entries[msg.slot()@ as int].settle(msgs, msg.slot()@, clear).ref_count == 1
    }

    /// The item that a weak handle for `slot` and `generation` reaches.
    pub open spec fn lookup(self, slot: nat, generation: nat) -> Option<T> {
        if slot < self.entries.len() && self.entries[slot as int].generation == generation {
            self.entries[slot as int].item
        } else {
            None
        }
    }

    /// The item in `slot`, whatever its generation.
    pub open spec fn item_at(self, slot: nat) -> Option<T> {
        if slot < self.entries.len() {
            self.entries[slot as int].item
        } else {
            None
        }
    }

    /// The pool with the item in `slot` replaced by `item`.
    pub open spec fn with_item(self, slot: nat, item: T) -> Self {
        PoolView {
            entries: self.entries.update(
                slot as int,
                EntryView { item: Some(item), ..self.entries[slot as int] },
            ),
            last_generation: self.last_generation,
            passed_over: self.passed_over,
        }
    }

    /// The pool with the item in `slot` removed.
    pub open spec fn without_item(self, slot: nat) -> Self {
        PoolView {
            entries: self.entries.update(
                slot as int,
                EntryView { item: None, ..self.entries[slot as int] },
            ),
            last_generation: self.last_generation,
            passed_over: self.passed_over,
        }
    }

    /// The pool with the items of its occupied slots replaced, in slot
    /// order, by `items`.
    pub open spec fn refill(self, items: Seq<T>) -> Self {
        PoolView { entries: refill(self.entries, items), ..self }
    }

    /// Replacing items keeps the table's invariant.
    pub proof fn lemma_refill_wf(self, items: Seq<T>)
        requires
            self.wf(),
        ensures
            self.refill(items).wf(),
    {
        lemma_refill_keeps(self.entries, items);
    }

    /// The occupied slots, in ascending order.
    pub open spec fn live_slots(self) -> Seq<int> {
        slots_from(self.entries, 0)
    }

    /// The items in slot order. Invalidated slots are skipped.
    pub open spec fn live_items(self) -> Seq<T> {
        items_from(self.entries, 0)
    }

    /// There is exactly one place where the next item goes.
    pub proof fn lemma_first_free_unique(self, i: int)
        requires
            self.is_first_free(i),
        ensures
            self.first_free() == i,
    {
        let j = self.first_free();
        assert(self.is_first_free(j));
        if j < i {
            assert(self.occupied(j));
        } else if i < j {
            assert(self.occupied(i));
        }
    }

    /// Some place for the next item always exists.
    pub proof fn lemma_first_free_exists(self, upto: int) -> (i: int)
        requires
            0 <= upto <= self.entries.len(),
            forall|j: int| 0 <= j < upto ==> self.occupied(j),
        ensures
            self.is_first_free(i),
            self.first_free() == i,
            upto <= i,
        decreases self.entries.len() - upto,
    {
        if !self.occupied(upto) {
            self.lemma_first_free_unique(upto);
            upto
        } else {
            self.lemma_first_free_exists(upto + 1)
        }
    }

    /// While every slot holds an item no slot is reused: the next item goes
    /// into a new slot at the end of the table, and the slots that were there
    /// stay as they are.
    pub proof fn law_full_table_appends(self, item: T)
        requires
            forall|i: int| 0 <= i < self.entries.len() ==> self.occupied(i),
        ensures
            self.first_free() == self.entries.len(),
            self.allocate(item).entries.len() == self.entries.len() + 1,
            forall|i: int|
                0 <= i < self.entries.len() ==> (#[trigger] self.allocate(item).entries[i])
                    == self.entries[i],
            self.allocate(item).entries[self.entries.len() as int].item == Some(item),
    {
        self.lemma_first_free_unique(self.entries.len() as int);
    }

    /// Allocation keeps the table's invariant.
    pub proof fn lemma_allocate_wf(self, item: T)
        requires
            self.wf(),
            self.last_generation < u32::MAX,
        ensures
            self.allocate(item).wf(),
    {
        let slot = self.lemma_first_free_exists(0);
        let next = self.allocate(item);
        assert forall|i: int, j: int| 0 <= i < j < next.entries.len() implies (
        #[trigger] next.entries[i]).generation != (#[trigger] next.entries[j]).generation by {
            if i != slot && j != slot {
                assert(next.entries[i] == self.entries[i]);
                assert(next.entries[j] == self.entries[j]);
            } else if i == slot {
                assert(next.entries[j] == self.entries[j]);
            } else {
                assert(next.entries[i] == self.entries[i]);
            }
        }
        assert forall|i: int| 0 <= i < next.entries.len() implies 1 <= (
        #[trigger] next.entries[i]).generation <= next.last_generation && next.entries[i].ref_count
            <= RefCount::MAX by {
            if i != slot {
                assert(next.entries[i] == self.entries[i]);
            }
        }
    }

    /// Replacing or removing an item keeps the table's invariant.
    pub proof fn lemma_with_item_wf(self, slot: nat, item: T)
        requires
            self.wf(),
            slot < self.entries.len(),
        ensures
            self.with_item(slot, item).wf(),
            self.without_item(slot).wf(),
    {
        let put = self.with_item(slot, item);
        let gone = self.without_item(slot);
        assert forall|i: int| 0 <= i < self.entries.len() implies {
            &&& (#[trigger] put.entries[i]).generation == self.entries[i].generation
            &&& put.entries[i].ref_count == self.entries[i].ref_count
        } by {}
        assert forall|i: int| 0 <= i < self.entries.len() implies {
            &&& (#[trigger] gone.entries[i]).generation == self.entries[i].generation
            &&& gone.entries[i].ref_count == self.entries[i].ref_count
        } by {}
    }

    /// One more message: the pool after `msgs.push(msg)` is the pool after
    /// `msgs` with `msg` applied to every entry.
    pub proof fn lemma_apply_push(self, msgs: Seq<Message>, msg: Message, clear: bool)
        ensures
            self.apply(msgs.push(msg), clear).entries =~= Seq::new(
                self.entries.len(),
                |i: int| self.apply(msgs, clear).entries[i].step(msg, i as nat, clear),
            ),
            self.apply(msgs.push(msg), clear).last_generation == self.last_generation,
            self.passed(msgs.push(msg), clear) == self.passed(msgs, clear) + (if self.passes_over(
                msgs,
                msg,
                clear,
            ) {
                1nat
            } else {
                0nat
            }),
            self.apply(msgs.push(msg), clear).passed_over == saturate(
                self.apply(msgs, clear).passed_over + (if self.passes_over(msgs, msg, clear) {
                    1nat
                } else {
                    0nat
                }),
            ),
    {
        assert(msgs.push(msg).drop_last() =~= msgs);
        assert(msgs.push(msg).last() == msg);
    }

    /// No messages, no change.
    pub proof fn lemma_apply_empty(self, clear: bool)
        requires
            self.passed_over <= u64::MAX,
        ensures
            self.apply(Seq::empty(), clear) == self,
    {
        assert(self.apply(Seq::empty(), clear).entries =~= self.entries);
    }

    /// Messages change counts and remove items; they never touch a
    /// generation, add a slot or put an item in.
    pub proof fn lemma_apply_keeps(self, msgs: Seq<Message>, clear: bool)
        requires
            self.wf(),
        ensures
            self.apply(msgs, clear).wf(),
            self.apply(msgs, clear).entries.len() == self.entries.len(),
            forall|i: int|
                0 <= i < self.entries.len() ==> ({
                    let after = #[trigger] self.apply(msgs, clear).entries[i];
                    &&& after.generation == self.entries[i].generation
                    &&& (after.item == self.entries[i].item || after.item is None)
                    &&& (!clear ==> after.item == self.entries[i].item)
                }),
        decreases msgs.len(),
    {
        if msgs.len() > 0 {
            self.lemma_apply_keeps(msgs.drop_last(), clear);
            let before = self.apply(msgs.drop_last(), clear);
            let after = self.apply(msgs, clear);
            assert forall|i: int| 0 <= i < self.entries.len() implies {
                let e = #[trigger] after.entries[i];
                &&& e.generation == self.entries[i].generation
                &&& (e.item == self.entries[i].item || e.item is None)
                &&& (!clear ==> e.item == self.entries[i].item)
                &&& e.ref_count <= RefCount::MAX
            } by {
                assert(after.entries[i] == before.entries[i].step(msgs.last(), i as nat, clear));
            }
        } else {
            self.lemma_apply_empty(clear);
        }
    }
}

} // verus!
