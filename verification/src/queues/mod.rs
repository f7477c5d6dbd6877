//! Transactional queue implementations.

use crate::transaction::{Transaction, TransactionView};
use crate::{Stm, StmControl};
use vstd::prelude::*;

pub mod promises;
pub mod tqueue;

verus! {

/// Transactional queue-like structure.
///
/// This is a common interface between the various implementations in Simon Marlow's book.
pub trait TQueueLike<T>: Clone + Send {
    /// A transaction means the variables of this queue by their IDs.
    spec fn known_to(&self, tx: TransactionView) -> bool;

    /// A transaction may find these items in the queue, the head first.
    spec fn may_hold(&self, tx: TransactionView, items: Seq<T>) -> bool;

    /// Pop the head of the queue, or retry until there is an element if it's empty.
    fn read(&self, tx: &mut Transaction) -> (r: Stm<T>)
        requires
            self.known_to(old(tx)@),
        ensures
            self.known_to(final(tx)@),
            r matches Ok(value) ==> forall|items: Seq<T>| #[trigger]
                self.may_hold(final(tx)@, items) ==> self.may_hold(
                    old(tx)@,
                    seq![value] + items,
                ),
            r == Err::<T, StmControl>(StmControl::Retry) ==> forall|items: Seq<T>| #[trigger]
                self.may_hold(final(tx)@, items) ==> items.len() == 0,
    ;

    /// Push to the end of the queue.
    fn write(&self, tx: &mut Transaction, value: T) -> (r: Stm<()>)
        requires
            self.known_to(old(tx)@),
        ensures
            self.known_to(final(tx)@),
            r is Ok ==> forall|items: Seq<T>| #[trigger]
                self.may_hold(final(tx)@, items) ==> items.len() > 0 && items.last() == value
                    && self.may_hold(old(tx)@, items.drop_last()),
            r != Err::<(), StmControl>(StmControl::Retry),
    ;

    /// Check if the queue is empty.
    fn is_empty(&self, tx: &mut Transaction) -> (r: Stm<bool>)
        requires
            self.known_to(old(tx)@),
        ensures
            self.known_to(final(tx)@),
            r matches Ok(empty) ==> forall|items: Seq<T>| #[trigger]
                self.may_hold(final(tx)@, items) ==> empty == (items.len() == 0),
            r != Err::<bool, StmControl>(StmControl::Retry),
    ;
}

} // verus!
