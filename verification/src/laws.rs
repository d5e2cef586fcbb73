//! What holds of a pool together with its queue and its handles.
//!
//! A pool's queue sits behind a shared cell, out of the verifier's sight, and
//! so do the handles that a program holds. This module puts the three side by
//! side as plain values: the table, the messages that wait in the queue, and
//! the number of strong handles outstanding for each slot. Every operation
//! of a handle or of the pool is one step on that state, by the same
//! functions that the contracts of the pool speak of.

use crate::handle::{Message, RefCount, Slot};
use crate::model::{EntryView, PoolView};
use vstd::prelude::*;

verus! {

/// One operation on a pool or on one of its strong handles. The message
/// that an operation of a handle queues is the one that
/// `Handle::new_message` or `Handle::drop_message` makes.
pub enum Op<T> {
    /// `Pool::add`: an item goes in and a strong handle comes out.
    Add(T),
    /// `Clone::clone` of a strong handle for the slot.
    Clone(Slot),
    /// `Handle::release` or `Handle::downgrade` of a strong handle for the
    /// slot.
    Release(Slot),
    /// A `Pool::upgrade` that succeeds, of a weak handle for the slot, made
    /// while a strong handle for the slot is outstanding.
    ///
    /// An upgrade made after the last strong handle was released and before
    /// the pool was synchronized is left out: the pool still shows a count
    /// of one and grants it, the queued `Drop` then clears the item, and the
    /// upgraded handle is left pointing at an empty slot.
    Upgrade(Slot),
    /// `Pool::sync_refcounts_and_invalidate`.
    Sync,
}

/// A pool, the messages queued for it and the strong handles outstanding.
pub struct World<T> {
    pub pool: PoolView<T>,
    /// The queue, oldest message first.
    pub queue: Seq<Message>,
    /// For each slot, the number of strong handles that refer to it.
    pub held: Seq<nat>,
}

/// The sum of the numbers in `counts`.
pub open spec fn sum(counts: Seq<nat>) -> nat
    decreases counts.len(),
{
    if counts.len() == 0 {
        0
    } else {
        sum(counts.drop_last()) + counts.last()
    }
}

/// The reference counts of a table, slot by slot.
pub open spec fn ref_counts<T>(pool: PoolView<T>) -> Seq<nat> {
    Seq::new(pool.entries.len(), |i: int| pool.entries[i].ref_count)
}

impl<T> World<T> {
    /// A new pool: no slot, no message, no handle.
    pub open spec fn fresh() -> Self {
        World {
            pool: PoolView { entries: Seq::empty(), last_generation: 0, passed_over: 0 },
            queue: Seq::empty(),
            held: Seq::empty(),
        }
    }

    /// Whether `op` can be done here: an item can be added while generations
    /// are left, a handle can be cloned or released while there is one, and a
    /// slot takes no more handles than a reference count can hold.
    pub open spec fn permits(self, op: Op<T>) -> bool {
        match op {
            Op::Add(_) => self.pool.last_generation < u32::MAX,
            Op::Clone(slot) => slot@ < self.held.len() && 1 <= self.held[slot@ as int]
                < RefCount::MAX,
            Op::Release(slot) => slot@ < self.held.len() && 1 <= self.held[slot@ as int],
            Op::Upgrade(slot) => {
                &&& slot@ < self.held.len()
                &&& slot@ < self.pool.entries.len()
                &&& self.pool.entries[slot@ as int].ref_count != 0
                &&& 1 <= self.held[slot@ as int] < RefCount::MAX
            },
            Op::Sync => true,
        }
    }

    /// The state after `op`.
    pub open spec fn step(self, op: Op<T>) -> Self {
        match op {
            Op::Add(item) => {
                let slot = self.pool.first_free();
                World {
                    pool: self.pool.allocate(item),
                    queue: self.queue,
                    held: if slot < self.held.len() {
                        self.held.update(slot, self.held[slot] + 1)
                    } else {
                        self.held.push(1)
                    },
                }
            },
            Op::Clone(slot) => World {
                pool: self.pool,
                queue: self.queue.push(Message::New(slot)),
                held: self.held.update(slot@ as int, self.held[slot@ as int] + 1),
            },
            Op::Release(slot) => World {
                pool: self.pool,
                queue: self.queue.push(Message::Drop(slot)),
                held: self.held.update(slot@ as int, (self.held[slot@ as int] - 1) as nat),
            },
            Op::Upgrade(slot) => World {
                pool: self.pool,
                queue: self.queue.push(Message::New(slot)),
                held: self.held.update(slot@ as int, self.held[slot@ as int] + 1),
            },
            Op::Sync => World {
                pool: self.pool.apply(self.queue, true),
                queue: Seq::empty(),
                held: self.held,
            },
        }
    }

    /// The state after the operations `ops`, first to last.
    pub open spec fn run(self, ops: Seq<Op<T>>) -> Self
        decreases ops.len(),
    {
        if ops.len() == 0 {
            self
        } else {
            self.run(ops.drop_last()).step(ops.last())
        }
    }

    /// Whether each of `ops` can be done in the state that it meets.
    pub open spec fn permits_all(self, ops: Seq<Op<T>>) -> bool
        decreases ops.len(),
    {
        ops.len() == 0 || (self.permits_all(ops.drop_last()) && self.run(
            ops.drop_last(),
        ).permits(ops.last()))
    }

    /// The table once everything queued is applied.
    pub open spec fn settled(self) -> PoolView<T> {
        self.pool.apply(self.queue, true)
    }

    /// What the operations keep true: once the queue is applied every count
    /// is the number of handles outstanding, a slot without an item has no
    /// handle and no message waiting, and no message has been or will be
    /// passed over.
    pub open spec fn inv(self) -> bool {
        &&& self.pool.wf()
        &&& self.pool.passed_over == 0
        &&& self.pool.passed(self.queue, true) == 0
        &&& self.held.len() == self.pool.entries.len()
        &&& forall|k: int|
            0 <= k < self.queue.len() ==> (#[trigger] self.queue[k]).slot()@
                < self.pool.entries.len()
        &&& forall|s: int|
            0 <= s < self.held.len() ==> (#[trigger] self.settled().entries[s]).ref_count
                == self.held[s]
        &&& forall|s: int|
            0 <= s < self.held.len() && (#[trigger] self.settled().entries[s]).item is None
                ==> self.held[s] == 0
        &&& forall|s: int, k: int|
            0 <= s < self.held.len() && (#[trigger] self.pool.entries[s]).item is None && 0 <= k
                < self.queue.len() ==> (#[trigger] self.queue[k]).slot()@ != s
    }
}

/// Messages for other slots leave an entry as it is.
pub proof fn lemma_settle_untouched<T>(
    entry: EntryView<T>,
    msgs: Seq<Message>,
    index: nat,
    clear: bool,
)
    requires
        forall|k: int| 0 <= k < msgs.len() ==> (#[trigger] msgs[k]).slot()@ != index,
    ensures
        entry.settle(msgs, index, clear) == entry,
    decreases msgs.len(),
{
    if msgs.len() > 0 {
        lemma_settle_untouched(entry, msgs.drop_last(), index, clear);
        assert(msgs.last() == msgs[msgs.len() - 1]);
    }
}

/// How many messages are passed over depends only on the slots that the
/// messages are for.
pub proof fn lemma_passed_local<T>(
    one: PoolView<T>,
    other: PoolView<T>,
    msgs: Seq<Message>,
    clear: bool,
)
    requires
        forall|k: int|
            0 <= k < msgs.len() ==> {
                let slot = (#[trigger] msgs[k]).slot()@ as int;
                &&& slot < one.entries.len()
                &&& slot < other.entries.len()
                &&& one.entries[slot] == other.entries[slot]
            },
    ensures
        one.passed(msgs, clear) == other.passed(msgs, clear),
    decreases msgs.len(),
{
    if msgs.len() > 0 {
        lemma_passed_local(one, other, msgs.drop_last(), clear);
        assert(msgs.last() == msgs[msgs.len() - 1]);
    }
}

impl<T> World<T> {
    /// Every permitted operation keeps the invariant.
    pub proof fn lemma_step_inv(self, op: Op<T>)
        requires
            self.inv(),
            self.permits(op),
        ensures
            self.step(op).inv(),
    {
        let next = self.step(op);
        let before = self.settled();
        let after = next.settled();
        self.pool.lemma_apply_keeps(self.queue, true);
        match op {
            Op::Add(item) => {
                let slot = self.pool.lemma_first_free_exists(0);
                self.pool.lemma_allocate_wf(item);
                let entry = EntryView::<T> {
                    item: Some(item),
                    generation: self.pool.last_generation + 1,
                    ref_count: 1,
                };
                assert(next.pool.entries[slot] == entry);
                assert forall|k: int| 0 <= k < self.queue.len() implies {
                    let at = (#[trigger] self.queue[k]).slot()@ as int;
                    &&& at < self.pool.entries.len()
                    &&& at < next.pool.entries.len()
                    &&& self.pool.entries[at] == next.pool.entries[at]
                } by {
                    let at = self.queue[k].slot()@ as int;
                    if slot < self.pool.entries.len() {
                        assert(self.pool.entries[slot].item is None);
                        assert(at != slot);
                    }
                }
                lemma_passed_local(self.pool, next.pool, self.queue, true);
                lemma_settle_untouched(entry, self.queue, slot as nat, true);
                if slot < self.pool.entries.len() {
                    lemma_settle_untouched(self.pool.entries[slot], self.queue, slot as nat, true);
                    assert(before.entries[slot] == self.pool.entries[slot]);
                }
                assert forall|s: int| 0 <= s < next.held.len() implies (
                #[trigger] after.entries[s]).ref_count == next.held[s] && (after.entries[s].item
                    is None ==> next.held[s] == 0) by {
                    if s != slot {
                        assert(next.pool.entries[s] == self.pool.entries[s]);
                        assert(after.entries[s] == before.entries[s]);
                    }
                }
                assert forall|s: int, k: int|
                    0 <= s < next.held.len() && (#[trigger] next.pool.entries[s]).item is None
                        && 0 <= k < next.queue.len() implies (#[trigger] next.queue[k]).slot()@
                    != s by {
                    assert(s != slot);
                    assert(next.pool.entries[s] == self.pool.entries[s]);
                }
            },
            Op::Clone(slot) => {
                self.lemma_enqueue_inv(op, Message::New(slot));
            },
            Op::Release(slot) => {
                self.lemma_enqueue_inv(op, Message::Drop(slot));
            },
            Op::Upgrade(slot) => {
                self.lemma_enqueue_inv(op, Message::New(slot));
            },
            Op::Sync => {
                before.lemma_apply_empty(true);
                assert(after == before);
            },
        }
    }

    /// Cloning or releasing a handle keeps the invariant. `msg` is the
    /// message that `op` queues.
    proof fn lemma_enqueue_inv(self, op: Op<T>, msg: Message)
        requires
            self.inv(),
            self.permits(op),
            (match op {
                Op::Clone(slot) => msg == Message::New(slot),
                Op::Release(slot) => msg == Message::Drop(slot),
                Op::Upgrade(slot) => msg == Message::New(slot),
                _ => false,
            }),
        ensures
            self.step(op).inv(),
    {
        let next = self.step(op);
        let before = self.settled();
        let after = next.settled();
        let target = msg.slot()@ as int;
        self.pool.lemma_apply_keeps(self.queue, true);
        self.pool.lemma_apply_push(self.queue, msg, true);
        assert(next.queue == self.queue.push(msg));
        assert(before.entries[target].ref_count == self.held[target]);
        assert(before.entries[target].item is Some);
        assert(self.pool.entries[target].item is Some);
        assert forall|s: int| 0 <= s < next.held.len() implies (
        #[trigger] after.entries[s]).ref_count == next.held[s] && (after.entries[s].item is None
            ==> next.held[s] == 0) by {
            assert(after.entries[s] == before.entries[s].step(msg, s as nat, true));
            assert(before.entries[s].ref_count == self.held[s]);
        }
        assert forall|s: int, k: int|
            0 <= s < next.held.len() && (#[trigger] next.pool.entries[s]).item is None && 0 <= k
                < next.queue.len() implies (#[trigger] next.queue[k]).slot()@ != s by {
            if k < self.queue.len() {
                assert(next.queue[k] == self.queue[k]);
            }
        }
        assert forall|k: int| 0 <= k < next.queue.len() implies (#[trigger] next.queue[k]).slot()@
            < next.pool.entries.len() by {
            if k < self.queue.len() {
                assert(next.queue[k] == self.queue[k]);
            }
        }
    }

    /// The invariant holds after any permitted operations on a new pool.
    pub proof fn lemma_run_inv(ops: Seq<Op<T>>)
        requires
            Self::fresh().permits_all(ops),
        ensures
            Self::fresh().run(ops).inv(),
        decreases ops.len(),
    {
        if ops.len() == 0 {
            Self::fresh().pool.lemma_apply_empty(true);
        } else {
            Self::lemma_run_inv(ops.drop_last());
            Self::fresh().run(ops.drop_last()).lemma_step_inv(ops.last());
        }
    }
}

/// Sequences that agree slot by slot have the same sum.
proof fn lemma_sum_pointwise(a: Seq<nat>, b: Seq<nat>)
    requires
        a.len() == b.len(),
        forall|i: int| 0 <= i < a.len() ==> a[i] == b[i],
    ensures
        sum(a) == sum(b),
{
    assert(a =~= b);
}

impl<T> World<T> {
    /// After any permitted sequence of adding items, cloning, upgrading and
    /// releasing handles, interleaved with synchronizations at will, a
    /// synchronization leaves every slot's reference count equal to the
    /// number of strong handles outstanding for the slot, and so the sum of
    /// the reference counts equal to the number of strong handles
    /// outstanding.
    pub proof fn law_counts_match_handles(ops: Seq<Op<T>>)
        requires
            Self::fresh().permits_all(ops),
        ensures
            ({
                let end = Self::fresh().run(ops).step(Op::Sync);
                &&& end.held.len() == end.pool.entries.len()
                &&& forall|s: int|
                    0 <= s < end.held.len() ==> (#[trigger] end.pool.entries[s]).ref_count
                        == end.held[s]
                &&& sum(ref_counts(end.pool)) == sum(end.held)
            }),
    {
        let last = Self::fresh().run(ops);
        let end = last.step(Op::Sync);
        Self::lemma_run_inv(ops);
        last.lemma_step_inv(Op::Sync);
        end.pool.lemma_apply_empty(true);
        assert(end.settled() == end.pool);
        lemma_sum_pointwise(ref_counts(end.pool), end.held);
    }

    /// After any permitted sequence of operations no message has been
    /// passed over, and none of those still queued will be.
    pub proof fn law_nothing_passed_over(ops: Seq<Op<T>>)
        requires
            Self::fresh().permits_all(ops),
        ensures
            Self::fresh().run(ops).pool.passed_over == 0,
            Self::fresh().run(ops).step(Op::Sync).pool.passed_over == 0,
    {
        Self::lemma_run_inv(ops);
        Self::fresh().run(ops).lemma_step_inv(Op::Sync);
    }

    /// A synchronization that follows a synchronization, with no handle
    /// cloned or released and no item added in between, changes nothing.
    pub proof fn law_sync_twice_is_sync_once(self)
        ensures
            self.step(Op::Sync).step(Op::Sync) == self.step(Op::Sync),
    {
        self.step(Op::Sync).pool.lemma_apply_empty(true);
    }

    /// While a strong handle is outstanding for a slot, the slot holds an
    /// item, whether or not the pool has been synchronized: a weak handle
    /// downgraded from the strong one reaches it.
    pub proof fn law_handle_reaches_item(ops: Seq<Op<T>>, slot: nat)
        requires
            Self::fresh().permits_all(ops),
            slot < Self::fresh().run(ops).held.len(),
            Self::fresh().run(ops).held[slot as int] >= 1,
        ensures
            ({
                let pool = Self::fresh().run(ops).pool;
                &&& slot < pool.entries.len()
                &&& pool.lookup(slot, pool.entries[slot as int].generation) is Some
            }),
    {
        let now = Self::fresh().run(ops);
        Self::lemma_run_inv(ops);
        now.pool.lemma_apply_keeps(now.queue, true);
        assert(now.settled().entries[slot as int].ref_count == now.held[slot as int]);
    }

    /// A weak handle that reaches an item goes on reaching that item over
    /// every operation but one: a synchronization at a moment when no strong
    /// handle is outstanding for its slot.
    pub proof fn law_weak_handle_stays_valid(
        ops: Seq<Op<T>>,
        op: Op<T>,
        slot: nat,
        generation: nat,
    )
        requires
            Self::fresh().permits_all(ops),
            Self::fresh().run(ops).permits(op),
            Self::fresh().run(ops).pool.lookup(slot, generation) is Some,
            op is Sync ==> Self::fresh().run(ops).held[slot as int] >= 1,
        ensures
            Self::fresh().run(ops).step(op).pool.lookup(slot, generation) == Self::fresh().run(
                ops,
            ).pool.lookup(slot, generation),
    {
        let now = Self::fresh().run(ops);
        Self::lemma_run_inv(ops);
        match op {
            Op::Add(item) => {
                let free = now.pool.lemma_first_free_exists(0);
                assert(free != slot);
            },
            Op::Clone(_) => {},
            Op::Release(_) => {},
            Op::Upgrade(_) => {},
            Op::Sync => {
                now.pool.lemma_apply_keeps(now.queue, true);
                assert(now.settled().entries[slot as int].ref_count == now.held[slot as int]);
            },
        }
    }

    /// Whatever is done to a pool, its generation counter does not go back
    /// and its invariant stays.
    pub proof fn lemma_run_counter(self, ops: Seq<Op<T>>)
        requires
            self.pool.wf(),
            self.permits_all(ops),
        ensures
            self.run(ops).pool.wf(),
            self.run(ops).pool.last_generation >= self.pool.last_generation,
        decreases ops.len(),
    {
        if ops.len() > 0 {
            self.lemma_run_counter(ops.drop_last());
            let now = self.run(ops.drop_last());
            match ops.last() {
                Op::Add(item) => {
                    now.pool.lemma_allocate_wf(item);
                },
                Op::Clone(_) => {},
                Op::Release(_) => {},
                Op::Upgrade(_) => {},
                Op::Sync => {
                    now.pool.lemma_apply_keeps(now.queue, true);
                },
            }
        }
    }

    /// A weak handle that once stopped reaching an item never reaches one
    /// again: not when its slot is given to a new item, and not otherwise.
    /// This holds of every generation that the pool has given out.
    pub proof fn law_stale_handle_stays_invalid(
        self,
        ops: Seq<Op<T>>,
        slot: nat,
        generation: nat,
    )
        requires
            self.pool.wf(),
            self.permits_all(ops),
            generation <= self.pool.last_generation,
            self.pool.lookup(slot, generation) is None,
        ensures
            self.run(ops).pool.lookup(slot, generation) is None,
        decreases ops.len(),
    {
        if ops.len() > 0 {
            self.law_stale_handle_stays_invalid(ops.drop_last(), slot, generation);
            self.lemma_run_counter(ops.drop_last());
            let now = self.run(ops.drop_last());
            match ops.last() {
                Op::Add(item) => {
                    let free = now.pool.lemma_first_free_exists(0);
                },
                Op::Clone(_) => {},
                Op::Release(_) => {},
                Op::Upgrade(_) => {},
                Op::Sync => {
                    now.pool.lemma_apply_keeps(now.queue, true);
                },
            }
        }
    }

    /// Of two items added to a pool, the later gets the greater generation,
    /// whatever happens in between. In particular two items that occupy the
    /// same slot one after the other have strictly increasing generations.
    pub proof fn law_generations_increase(self, first: T, ops: Seq<Op<T>>, second: T)
        requires
            self.pool.wf(),
            self.permits(Op::Add(first)),
            self.step(Op::Add(first)).permits_all(ops),
            self.step(Op::Add(first)).run(ops).permits(Op::Add(second)),
        ensures
            ({
                let one = self.step(Op::Add(first));
                let other = one.run(ops);
                let two = other.step(Op::Add(second));
                let s1 = self.pool.first_free();
                let s2 = other.pool.first_free();
                &&& 0 <= s1 < one.pool.entries.len()
                &&& 0 <= s2 < two.pool.entries.len()
                &&& one.pool.entries[s1].item == Some(first)
                &&& two.pool.entries[s2].item == Some(second)
                &&& one.pool.entries[s1].generation < two.pool.entries[s2].generation
            }),
    {
        let one = self.step(Op::Add(first));
        let other = one.run(ops);
        let s1 = self.pool.lemma_first_free_exists(0);
        self.pool.lemma_allocate_wf(first);
        one.lemma_run_counter(ops);
        let s2 = other.pool.lemma_first_free_exists(0);
    }
}

} // verus!
