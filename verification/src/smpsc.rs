//! Single-threaded multi-producer, single-consumer FIFO queue.
//!
//! Every [`Sender`] cloned from one [`unbounded`] pair and the pair's
//! [`Receiver`] share one queue. The queue lives behind a shared cell, so a
//! `send` through one endpoint is observed by a later `recv` through another
//! without any of the endpoints being borrowed mutably. For the same reason no
//! contract here can speak of the queue's contents: to the verifier a value
//! read from the cell is arbitrary. What contracts can and do state is which
//! endpoints are attached to which queue.

use std::cell::Cell;
use std::collections::VecDeque;
use std::rc::Rc;
use vstd::prelude::*;

verus! {

/// `std::cell::Cell`, carried through as an opaque value. The verifier sees
/// nothing of its contents; as a value it stands for the cell's identity.
#[verifier::external_type_specification]
#[verifier::external_body]
#[verifier::reject_recursive_types(T)]
pub struct ExCell<T: ?Sized>(Cell<T>);

/// `Cell::new` wraps a value in a fresh cell. Nothing is claimed of the cell
/// that comes back.
pub assume_specification<T>[ Cell::<T>::new ](value: T) -> (cell: Cell<T>);

/// `Cell::replace` stores `value` and hands back what the cell held. Nothing
/// is claimed of the value handed back. A `Cell` cannot be borrowed, so the
/// call goes through in every state of the cell.
pub assume_specification<T>[ Cell::<T>::replace ](cell: &Cell<T>, value: T) -> (previous: T);

/// Producer end of a queue. Often called `tx`.
#[verifier::reject_recursive_types(T)]
pub struct Sender<T>(Rc<Cell<VecDeque<T>>>);

/// Consumer end of a queue. Often called `rx`.
#[verifier::reject_recursive_types(T)]
pub struct Receiver<T>(Rc<Cell<VecDeque<T>>>);

impl<T> Sender<T> {
    /// The queue this endpoint is attached to.
    pub closed spec fn channel(&self) -> Cell<VecDeque<T>> {
        *self.0
    }

    /// Appends `item` at the back of the shared queue.
    ///
    /// The queue is swapped out of the cell for an empty one, extended and
    /// put back.
    pub fn send(&self, item: T) {
        let mut queue = self.0.replace(VecDeque::new());
        queue.push_back(item);
        let _ = self.0.replace(queue);
    }
}

impl<T> Clone for Sender<T> {
    /// A second producer for the same queue.
    fn clone(&self) -> (res: Self)
        ensures
            res.channel() == self.channel(),
    {
        Sender(Rc::clone(&self.0))
    }
}

impl<T> Receiver<T> {
    /// The queue this endpoint is attached to.
    pub closed spec fn channel(&self) -> Cell<VecDeque<T>> {
        *self.0
    }

    /// Removes and returns the item at the front of the shared queue, `None`
    /// when the queue is empty.
    pub fn recv(&self) -> (item: Option<T>) {
        let mut queue = self.0.replace(VecDeque::new());
        let item = pop_oldest(&mut queue);
        let _ = self.0.replace(queue);
        item
    }

    /// Removes everything that is queued at this moment and returns it, oldest
    /// first. Items sent after the call stay queued for the next one.
    pub fn recv_all(&self) -> (items: VecDeque<T>) {
        self.0.replace(VecDeque::new())
    }
}

/// Creates a queue and returns its two ends.
pub fn unbounded<T>() -> (ends: (Sender<T>, Receiver<T>))
    ensures
        ends.0.channel() == ends.1.channel(),
{
    let queue = Rc::new(Cell::new(VecDeque::new()));
    (Sender(Rc::clone(&queue)), Receiver(queue))
}

/// Takes the oldest item off what a queue holds: the item at the front comes
/// out and the others stay in their order; `None`, and no change, when
/// nothing is held. This is what [`Receiver::recv`] does with whatever it
/// finds in the shared cell.
pub fn pop_oldest<T>(queue: &mut VecDeque<T>) -> (item: Option<T>)
    ensures
        (match item {
            Some(x) => {
                &&& old(queue)@.len() > 0
                &&& x == old(queue)@.first()
                &&& final(queue)@ == old(queue)@.drop_first()
            },
            None => {
                &&& old(queue)@.len() == 0
                &&& final(queue)@ == old(queue)@
            },
        }),
{
    let item = queue.pop_front();
    assert(item is Some ==> queue@ =~= old(queue)@.drop_first());
    item
}

} // verus!
