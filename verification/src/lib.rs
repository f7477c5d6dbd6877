//! Software transactional memory.
//!
//! A [`Transaction`](transaction::Transaction) reads and writes [`TVar`](vars::TVar)s through a log
//! of its own. When it is done it takes the locks of every variable in the log, and checks that none
//! of them has been written since; if that is so, and its auxiliary transaction has been committed,
//! it stores all of its values under one new version.

use vstd::prelude::*;

pub mod auxtx;
pub mod channel;
pub mod laws;
pub mod locks;
pub mod ops;
pub mod promises;
pub mod queues;
pub mod transaction;
pub mod value;
pub mod vars;
pub mod version;

verus! {

/// Transaction shortcutting signals handled by the STM framework.
#[derive(Debug, Clone, Copy, PartialEq, Eq, Structural)]
pub enum StmControl {
    /// The transaction failed because a value changed.
    /// It can be retried straight away.
    Failure,
    /// Retry was called and now the transaction has
    /// to wait until at least one of the variables it
    /// read have changed, before being retried.
    Retry,
}

/// STM error extended with the ability to abort the transaction
/// with an error. It is separate so that a transaction which cannot
/// abort says so in its type.
#[derive(Debug)]
pub enum StmError<E> {
    /// Regular error.
    Control(StmControl),
    /// Abort the transaction and return an error.
    Abort(E),
}

/// Conversion to allow mixing methods returning [`Stm`]
/// with ones returning [`StmResult`] using the `?` operator.
impl<E> From<StmControl> for StmError<E> {
    fn from(e: StmControl) -> (r: Self) {
        StmError::Control(e)
    }
}

impl<E> vstd::std_specs::convert::FromSpecImpl<StmControl> for StmError<E> {
    open spec fn obeys_from_spec() -> bool {
        true
    }

    open spec fn from_spec(e: StmControl) -> Self {
        StmError::Control(e)
    }
}

/// Type returned by STM methods that cannot be aborted,
/// the only reason they can fail is to be retried.
pub type Stm<T> = Result<T, StmControl>;

/// Type returned by STM methods that can be aborted with an error.
pub type StmResult<T, E> = Result<T, StmError<E>>;

} // verus!
