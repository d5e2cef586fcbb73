//! A generational-index object pool with reference-counted handles.
//!
//! A [`Pool`] is a growable table of slots. Each slot holds an item, the
//! generation under which the item went in, and a count of the strong
//! [`Handle`]s that refer to it. A [`WeakHandle`] names an item by slot and
//! generation and reaches it for as long as the slot still carries that
//! generation and still holds an item.
//!
//! Handles never touch the table. Cloning or releasing a strong handle puts a
//! [`Message`] on a queue ([`smpsc`]) that the pool drains when it is asked to
//! synchronize; only then do counts move and do items without a reference
//! leave the table.
//!
//! * [`handle`]: slots, messages and the two kinds of handle
//! * [`smpsc`]: the queue
//! * [`pool`]: the pool and its operations
//! * [`iter`]: iteration over the items of a pool
//! * [`tree`]: nodes kept in a pool and linked by slot
//! * [`model`]: the table as plain values, in whose terms every contract of
//!   the pool is stated
//! * [`laws`]: what is proved of a pool together with its queue and its
//!   handles

pub mod handle;
pub mod iter;
pub mod laws;
pub mod model;
pub mod pool;
pub mod smpsc;
pub mod tree;

pub use handle::{Handle, Message, RefCount, Slot, WeakHandle};
pub use pool::Pool;
