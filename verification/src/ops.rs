//! The primary verbs to interact with STM transactions.

use crate::auxtx::Aux;
use crate::transaction::{Transaction, TransactionView, WaitFor};
use crate::version::{Clock, Version};
use crate::{Stm, StmControl, StmError, StmResult};
use vstd::prelude::*;

verus! {

/// Abandon the transaction and retry after some of the variables read have changed.
pub fn retry<T>() -> (r: Stm<T>)
    ensures
        r == Err::<T, StmControl>(StmControl::Retry),
{
    Err(StmControl::Retry)
}

/// Retry unless a given condition has been met.
pub fn guard(cond: bool) -> (r: Stm<()>)
    ensures
        r == if cond {
            Ok::<(), StmControl>(())
        } else {
            Err(StmControl::Retry)
        },
{
    if cond {
        Ok(())
    } else {
        retry()
    }
}

/// Abort the transaction with an error.
pub fn abort<T, E1: Into<E2>, E2>(e: E1) -> (r: StmResult<T, E2>)
    ensures
        r matches Err(StmError::Abort(converted)) && call_ensures(E1::into, (e,), converted),
{
    Err(StmError::Abort(e.into()))
}

/// What a function has done to a transaction, and its result.
pub struct Outcome<T> {
    pub tx: TransactionView,
    pub result: Stm<T>,
}

/// The outcome of two alternatives that start from the same transaction: that of the first, unless
/// it has to be retried; then that of the second; and if both have to be retried, the variables of
/// the first are added.
pub open spec fn either<T>(first: Outcome<T>, second: Outcome<T>) -> Outcome<T> {
    let retry = Err::<T, StmControl>(StmControl::Retry);
    if first.result != retry {
        first
    } else if second.result != retry {
        second
    } else {
        Outcome { tx: second.tx.absorbs(first.tx), result: retry }
    }
}

/// Run the first function; if it returns a `Retry`,
/// run the second function; if that too returns `Retry`
/// then combine the values they have read, so that
/// the overall retry will react to any change.
///
/// If they return `Failure` then just return that result,
/// since the transaction can be retried right now.
pub fn or<F, G, T>(tx: &mut Transaction, f: F, g: G) -> (r: Stm<T>) where
    F: FnOnce(&mut Transaction) -> Stm<T>,
    G: FnOnce(&mut Transaction) -> Stm<T>,

    requires
        forall|t: &mut Transaction| (*t)@ == old(tx)@ ==> #[trigger] f.requires((t,)),
        forall|t: &mut Transaction| (*t)@ == old(tx)@ ==> #[trigger] g.requires((t,)),
    ensures
        exists|first: &mut Transaction, r1: Stm<T>|
            {
                &&& #[trigger] f.ensures((first,), r1)
                &&& (*first)@ == old(tx)@
                &&& if r1 == Err::<T, StmControl>(StmControl::Retry) {
                    exists|second: &mut Transaction|
                        {
                            &&& #[trigger] g.ensures((second,), r)
                            &&& (*second)@ == old(tx)@
                            &&& (Outcome { tx: final(tx)@, result: r }) == either(
                                Outcome { tx: (*final(first))@, result: r1 },
                                Outcome { tx: (*final(second))@, result: r },
                            )
                        }
                } else {
                    (Outcome { tx: final(tx)@, result: r }) == (Outcome {
                        tx: (*final(first))@,
                        result: r1,
                    })
                }
            },
{
    let mut snapshot = tx.clone();

    match f(tx) {
        Err(StmControl::Retry) => {
            // Restore the state of the transaction before the first attempt.
            std::mem::swap(tx, &mut snapshot);

            match g(tx) {
                Err(StmControl::Retry) => {
                    // Add any variable read in the first attempt.
                    tx.absorb(&snapshot);
                    retry()
                },
                other => other,
            }
        },
        other => other,
    }
}

/// The result of a function that cannot abort, as one that could.
pub open spec fn as_control<T, E>(result: Stm<T>) -> StmResult<T, E> {
    match result {
        Ok(value) => Ok(value),
        Err(e) => Err(StmError::Control(e)),
    }
}

/// The result of a function that cannot abort, as one that could.
pub fn control<T, E>(result: Stm<T>) -> (r: StmResult<T, E>)
    ensures
        r == as_control::<T, E>(result),
{
    match result {
        Ok(value) => Ok(value),
        Err(e) => Err(StmError::from(e)),
    }
}

/// Install a new transaction, to be used by the atomic operation. Nesting is not supported, use
/// [`or`] instead.
pub fn begin(running: &mut Option<Transaction>, clock: &Clock)
    requires
        *old(running) is None,
    ensures
        *final(running) matches Some(tx) && tx@ == TransactionView::starts(clock.now),
{
    *running = Some(Transaction::new(clock));
}

/// What finishing a successful attempt does, and whether it is done with.
///
/// Either it has been committed, and those that wait have been woken up; or it could not be
/// committed, and the attempt can be repeated.
pub open spec fn finishes<X: Aux, N: FnOnce() -> Version>(
    tx: TransactionView,
    atx: X,
    next_version: N,
    done: bool,
) -> bool {
    if done {
        exists|version: Version| #[trigger]
            tx.commits(atx, next_version, Some(version)) && tx.wakes(version)
    } else {
        tx.commits(atx, next_version, None)
    }
}

/// Finish an attempt of an atomic operation that has come to a value: see if we manage to commit it.
/// If not, the attempt can be repeated straight away. The clock is handed back unless something has
/// been stored.
pub fn finish<T, X: Aux, N: FnOnce() -> Version>(
    tx: Transaction,
    atx: X,
    value: T,
    next_version: N,
) -> (r: (Option<T>, Option<N>))
    requires
        next_version.requires(()),
        forall|v: Version| #[trigger] next_version.ensures((), v) ==> tx@.precedes(v),
    ensures
        finishes(tx@, atx, next_version, r.0 is Some),
        r.0 matches Some(v) ==> v == value,
        r.1 == if tx@.has_writes && r.0 is Some {
            None
        } else {
            Some(next_version)
        },
{
    let (committed, clock) = tx.commit(atx, next_version);
    match committed {
        Some(version) => {
            tx.notify(version);
            (Some(value), clock)
        },
        None => (None, clock),
    }
}

/// What to do after an attempt of an atomic operation that has come to no value.
pub enum Next<E> {
    /// It can be repeated straight away.
    Again,
    /// It can be repeated after a wait.
    Wait(WaitFor),
    /// It is over, with an error.
    Abort(E),
}

/// What giving up an attempt does, and what it returns. The auxiliary transaction is rolled back.
pub open spec fn gives_way<E, X: Aux>(
    tx: TransactionView,
    atx: X,
    err: StmError<E>,
    r: Next<E>,
) -> bool {
    &&& call_ensures(X::rollback, (atx,), ())
    &&& match err {
        StmError::Control(StmControl::Failure) => r is Again,
        StmError::Control(StmControl::Retry) => r matches Next::Wait(wait) && tx.waits_for(wait),
        StmError::Abort(e) => r == Next::Abort(e),
    }
}

/// Give up an attempt of an atomic operation. There is no clock to commit anything with.
pub fn give_up<E, X: Aux>(tx: Transaction, atx: X, err: StmError<E>) -> (r: Next<E>)
    ensures
        gives_way(tx@, atx, err, r),
{
    atx.rollback();
    match err {
        // We can retry straight away.
        StmError::Control(StmControl::Failure) => Next::Again,
        // Wait until there's a change.
        StmError::Control(StmControl::Retry) => Next::Wait(tx.subscribe()),
        // Don't retry, return the error to the caller.
        StmError::Abort(e) => Next::Abort(e),
    }
}

} // verus!
