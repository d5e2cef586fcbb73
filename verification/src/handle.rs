//! Slots, reference-count messages and the two kinds of handle.

use crate::smpsc::Sender;
use std::cell::Cell;
use std::collections::VecDeque;
use std::marker::PhantomData;
use vstd::prelude::*;
use vstd::std_specs::cmp::PartialEqSpecImpl;
use vstd::std_specs::convert::FromSpecImpl;

verus! {

/// Type for reference counting
pub type RefCount = u16;

/// Position of an entry in a pool's table. Newtype of `u32`.
#[derive(Debug, Clone, Copy, PartialEq, Eq, Hash, Structural)]
pub struct Slot(u32);

impl View for Slot {
    type V = nat;

    closed spec fn view(&self) -> nat {
        self.0 as nat
    }
}

impl Slot {
    /// The slot of the entry at position `index`.
    pub(crate) fn from_index(index: u32) -> (slot: Slot)
        ensures
            slot@ == index,
    {
        Slot(index)
    }

    pub fn to_usize(&self) -> (index: usize)
        ensures
            index == self@,
    {
        self.0 as usize
    }

    /// A slot is its position and nothing else: two slots with one position
    /// are one slot, and every position fits in 32 bits.
    pub proof fn lemma_view(a: Slot, b: Slot)
        ensures
            a@ == b@ <==> a == b,
            a@ <= u32::MAX,
    {
    }
}

impl Default for Slot {
    /// The first slot of any table.
    fn default() -> (slot: Slot)
        ensures
            slot@ == 0,
    {
        Slot(0)
    }
}

/// Reference counting message (New | Drop)
#[derive(Debug, Clone, Copy, PartialEq, Eq, Hash, Structural)]
pub enum Message {
    /// A strong handle to the slot was created.
    New(Slot),
    /// A strong handle to the slot was destroyed.
    Drop(Slot),
}

impl Message {
    /// The slot that the message is about.
    pub open spec fn spec_slot(&self) -> Slot {
        match *self {
            Message::New(slot) => slot,
            Message::Drop(slot) => slot,
        }
    }

    /// The slot that the message is about.
    #[verifier::when_used_as_spec(spec_slot)]
    pub fn slot(&self) -> (slot: Slot)
        ensures
            slot == self.spec_slot(),
    {
        match *self {
            Message::New(slot) => slot,
            Message::Drop(slot) => slot,
        }
    }
}

/// Owning index to an item in a pool.
///
/// Every strong handle counts as one reference to its slot. The first handle
/// of an item is counted when the item is added; [`Clone::clone`] and
/// [`Handle::release`] queue a message for the pool, which applies it on its
/// next synchronization. A handle that goes out of scope without a call of
/// `release` or `downgrade` stays counted, and its item stays in the pool.
pub struct Handle<T> {
    slot: Slot,
    /// Generation of the item, handed on to weak handles
    gen: u32,
    sender: Sender<Message>,
    _ty: PhantomData<T>,
}

/// Non-owning index to an item in a pool.
///
/// The item is identified by slot and generation.
#[derive(Debug)]
pub struct WeakHandle<T> {
    slot: Slot,
    /// Tells the item that the handle was made for from later occupants of
    /// the slot
    gen: u32,
    _ty: PhantomData<T>,
}

impl<T> Handle<T> {
    /// The slot that the handle points into.
    pub closed spec fn spec_slot(&self) -> Slot {
        self.slot
    }

    /// The generation of the item that the handle was made for.
    pub closed spec fn generation(&self) -> nat {
        self.gen as nat
    }

    /// The queue on which the handle reports its clones and its release.
    pub closed spec fn channel(&self) -> Cell<VecDeque<Message>> {
        self.sender.channel()
    }

    /// A strong handle for `slot` and `generation` that reports to `sender`.
    /// The caller accounts for the reference.
    pub(crate) fn new(slot: Slot, generation: u32, sender: Sender<Message>) -> (handle: Self)
        ensures
            handle.spec_slot() == slot,
            handle.generation() == generation,
            handle.channel() == sender.channel(),
    {
        Handle { slot, gen: generation, sender, _ty: PhantomData }
    }

    /// The slot that the handle points into: the item's position in the
    /// pool's table.
    #[verifier::when_used_as_spec(spec_slot)]
    pub fn slot(&self) -> (slot: Slot)
        ensures
            slot == self.spec_slot(),
    {
        self.slot
    }

    /// The message that reports a new strong handle for this handle's slot.
    /// It is what [`Clone::clone`] queues, and what the pool queues when it
    /// upgrades a weak handle.
    pub fn new_message(&self) -> (msg: Message)
        ensures
            msg == Message::New(self.spec_slot()),
    {
        Message::New(self.slot)
    }

    /// The message that reports the end of this strong handle. It is what
    /// [`Handle::release`] queues.
    pub fn drop_message(&self) -> (msg: Message)
        ensures
            msg == Message::Drop(self.spec_slot()),
    {
        Message::Drop(self.slot)
    }

    /// Gives the reference up: queues the handle's
    /// [`drop_message`](Handle::drop_message).
    pub fn release(self) {
        self.sender.send(self.drop_message());
    }

    /// Turns the handle into a weak one for the same item. The strong
    /// reference is given up, as by [`Handle::release`].
    pub fn downgrade(self) -> (weak: WeakHandle<T>)
        ensures
            weak.spec_slot() == self.spec_slot(),
            weak.generation() == self.generation(),
    {
        let weak = WeakHandle { slot: self.slot, gen: self.gen, _ty: PhantomData };
        self.release();
        weak
    }

    /// A weak handle for the same item; the strong handle stays. A clone is
    /// made and downgraded, which queues a `New` and then a `Drop` message.
    pub fn to_downgraded(&self) -> (weak: WeakHandle<T>)
        ensures
            weak.spec_slot() == self.spec_slot(),
            weak.generation() == self.generation(),
    {
        self.clone().downgrade()
    }
}

impl<T> Clone for Handle<T> {
    /// A second strong handle for the same item. Queues the handle's
    /// [`new_message`](Handle::new_message).
    fn clone(&self) -> (res: Self)
        ensures
            res.spec_slot() == self.spec_slot(),
            res.generation() == self.generation(),
            res.channel() == self.channel(),
    {
        self.sender.send(self.new_message());
        Handle { slot: self.slot, gen: self.gen, sender: self.sender.clone(), _ty: PhantomData }
    }
}

impl<T> PartialEq for Handle<T> {
    /// Two strong handles are equal when slot and generation match; the queue
    /// they report to is not compared.
    fn eq(&self, other: &Self) -> (res: bool) {
        self.slot == other.slot && self.gen == other.gen
    }
}

impl<T> PartialEqSpecImpl for Handle<T> {
    open spec fn obeys_eq_spec() -> bool {
        true
    }

    open spec fn eq_spec(&self, other: &Self) -> bool {
        self.spec_slot() == other.spec_slot() && self.generation() == other.generation()
    }
}

impl<T> WeakHandle<T> {
    /// The slot that the handle points into.
    pub closed spec fn spec_slot(&self) -> Slot {
        self.slot
    }

    /// The generation of the item that the handle was made for.
    pub closed spec fn generation(&self) -> nat {
        self.gen as nat
    }

    /// The slot that the handle points into: the item's position in the
    /// pool's table.
    #[verifier::when_used_as_spec(spec_slot)]
    pub fn slot(&self) -> (slot: Slot)
        ensures
            slot == self.spec_slot(),
    {
        self.slot
    }

    /// The generation as the pool stores it.
    pub(crate) fn gen(&self) -> (generation: u32)
        ensures
            generation == self.generation(),
    {
        self.gen
    }

    /// A weak handle is its slot and its generation and nothing else.
    pub proof fn lemma_identity(a: WeakHandle<T>, b: WeakHandle<T>)
        ensures
            (a.spec_slot() == b.spec_slot() && a.generation() == b.generation()) <==> a == b,
    {
    }
}

impl<T> Clone for WeakHandle<T> {
    fn clone(&self) -> (res: Self)
        ensures
            res == *self,
    {
        WeakHandle { slot: self.slot, gen: self.gen, _ty: PhantomData }
    }
}

impl<T> Copy for WeakHandle<T> {

}

impl<T> PartialEq for WeakHandle<T> {
    /// Two weak handles are equal iff both slot and generation match.
    fn eq(&self, other: &Self) -> (res: bool) {
        self.slot == other.slot && self.gen == other.gen
    }
}

impl<T> PartialEqSpecImpl for WeakHandle<T> {
    open spec fn obeys_eq_spec() -> bool {
        true
    }

    open spec fn eq_spec(&self, other: &Self) -> bool {
        self.spec_slot() == other.spec_slot() && self.generation() == other.generation()
    }
}

impl<T> From<Handle<T>> for WeakHandle<T> {
    /// Same as [`Handle::downgrade`].
    fn from(h: Handle<T>) -> (weak: Self) {
        h.downgrade()
    }
}

impl<T> FromSpecImpl<Handle<T>> for WeakHandle<T> {
    open spec fn obeys_from_spec() -> bool {
        true
    }

    open spec fn from_spec(h: Handle<T>) -> Self {
        WeakHandle::identify(h.spec_slot(), h.generation())
    }
}

impl<T> WeakHandle<T> {
    /// The weak handle for `slot` and `generation`.
    pub closed spec fn identify(slot: Slot, generation: nat) -> Self {
        WeakHandle { slot, gen: generation as u32, _ty: PhantomData }
    }
}

} // verus!
