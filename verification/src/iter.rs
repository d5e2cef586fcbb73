//! Iterator types for the pool

use crate::model::items_from;
use crate::pool::{entries_view, PoolEntry};
use vstd::prelude::*;

verus! {

/// Walks the valid items of a pool in slot order.
pub struct Iter<'a, T> {
    entries: &'a Vec<PoolEntry<T>>,
    pos: usize,
}

/// Mutable references to the valid items of a pool, in slot order.
pub type IterMut<'a, T> = Vec<&'a mut T>;

impl<'a, T> Iter<'a, T> {
    /// The items that the iterator has yet to return, in the order in which
    /// it returns them.
    pub closed spec fn remaining(&self) -> Seq<T> {
        items_from(entries_view(self.entries@), self.pos as int)
    }

    pub(crate) fn new(entries: &'a Vec<PoolEntry<T>>) -> (iter: Self)
        ensures
            iter.remaining() == items_from(entries_view(entries@), 0),
    {
        Iter { entries, pos: 0 }
    }

    /// The next valid item, `None` once every slot has been passed.
    pub fn next(&mut self) -> (item: Option<&'a T>)
        ensures
            (match item {
                Some(x) => {
                    &&& old(self).remaining().len() > 0
                    &&& *x == old(self).remaining()[0]
                    &&& final(self).remaining() == old(self).remaining().drop_first()
                },
                None => {
                    &&& old(self).remaining().len() == 0
                    &&& final(self).remaining() == old(self).remaining()
                },
            }),
    {
        while self.pos < self.entries.len()
            invariant
                self.entries == old(self).entries,
                self.remaining() == old(self).remaining(),
            decreases self.entries.len() - self.pos,
        {
            let entry = &self.entries[self.pos];
            self.pos += 1;
            match &entry.data {
                Some(data) => {
                    assert(old(self).remaining().drop_first() =~= self.remaining());
                    return Some(data);
                },
                None => {},
            }
        }
        None
    }
}

} // verus!
