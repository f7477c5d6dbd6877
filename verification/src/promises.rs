//! What each call promises: how what comes out of it relates to what went in, variable by variable.

use crate::auxtx::{Aux, NoAux};
use crate::channel::{channel_of, listens_to, offered, Listener, Signaler};
use crate::laws::{commit_wakes_waiting_transaction, lemma_accepting_keeps};
use crate::locks::{given_back, held, held_at, queue_states, queue_taken, stamps, taken};
use crate::ops::{abort, begin, control, finish, give_up, guard, or, retry, Next};
use crate::transaction::{
    all_current, current, has_updates, keep_waiting, notified_after, seconds, subscribed_after,
    validates, with_tx, Transaction, TransactionView, WaitFor,
};
use crate::value::{is_data, DynValue};
use crate::vars::{
    accepting, channels_of, keep_accepting, was_offered, IdSource, LVar, TVar, VVar, WaitQueue, ID,
};
use crate::version::{current_version, next_version, Clock, Version};
use crate::{Stm, StmControl, StmError, StmResult};
use parking_lot::Mutex;
use std::sync::Arc;
use vstd::prelude::*;

verus! {

/// A transaction goes on from another one: it has the same start and timeout, and the same of every
/// variable but one.
pub open spec fn only_touches(pre: TransactionView, post: TransactionView, id: ID) -> bool {
    &&& post.version == pre.version
    &&& post.empty_retry_wait_timeout == pre.empty_retry_wait_timeout
    &&& forall|other: ID|
        other != id ==> {
            &&& #[trigger] post.log.contains_key(other) == pre.log.contains_key(other)
            &&& pre.log.contains_key(other) ==> post.log[other] == pre.log[other]
        }
}

proof fn lemma_only_touches(
    pre: TransactionView,
    mid: TransactionView,
    post: TransactionView,
    id: ID,
)
    requires
        only_touches(pre, mid, id),
        only_touches(mid, post, id),
    ensures
        only_touches(pre, post, id),
{
    assert forall|other: ID| other != id implies {
        &&& #[trigger] post.log.contains_key(other) == pre.log.contains_key(other)
        &&& pre.log.contains_key(other) ==> post.log[other] == pre.log[other]
    } by {
        assert(mid.log.contains_key(other) == pre.log.contains_key(other));
        assert(post.log.contains_key(other) == mid.log.contains_key(other));
        if pre.log.contains_key(other) {
            assert(mid.log[other] == pre.log[other]);
            assert(post.log[other] == mid.log[other]);
        }
    }
}

/// A transaction starts with the version that the clock shows and nothing else.
pub proof fn new_transaction_is_empty(clock: &Clock, tx: Transaction, id: ID)
    requires
        call_ensures(Transaction::new, (clock,), tx),
    ensures
        tx@.version == clock.now,
        !tx@.log.contains_key(id),
        !tx@.has_writes,
        tx@.empty_retry_wait_timeout == seconds(60),
{
}

/// Only a new transaction is put in place, where there was none.
pub proof fn begin_starts_from_the_clock(clock: &Clock, id: ID)
    ensures
        forall|running: &mut Option<Transaction>|
            #[trigger] call_ensures(begin, (running, clock), ()) ==> {
                &&& *final(running) matches Some(tx) && {
                    &&& tx@.version == clock.now
                    &&& !tx@.log.contains_key(id)
                    &&& !tx@.has_writes
                    &&& tx@.empty_retry_wait_timeout == seconds(60)
                }
            },
{
}

/// A function that is handed the running transaction gets that one, its result is returned, and
/// what it leaves is what runs on.
pub proof fn with_tx_lends_the_running_transaction<F: FnOnce(&mut Transaction) -> T, T>(f: F, r: T)
    ensures
        forall|running: &mut Option<Transaction>|
            #[trigger] call_ensures(with_tx::<F, T>, (running, f), r) && *running is Some
                ==> exists|tx: &mut Transaction|
                {
                    &&& #[trigger] f.ensures((tx,), r)
                    &&& *running == Some(*tx)
                    &&& *final(running) == Some(*final(tx))
                },
{
}

/// A variable that is in the log is read from there: whatever the store holds by now, the read does
/// not fail, gives what is logged, and changes nothing.
pub proof fn logged_variable_is_read_from_the_log<T: Send + Sync + 'static>(
    tvar: &TVar<T>,
    r: Stm<Arc<T>>,
)
    ensures
        forall|tx: &mut Transaction|
            #[trigger] call_ensures(Transaction::read::<T>, (tx, tvar), r)
                && (*tx)@.log.contains_key(tvar.id()) ==> {
                &&& (*final(tx))@ == (*tx)@
                &&& r matches Ok(x) && {
                    &&& (*tx)@.log[tvar.id()].vvar().value.holds(*x)
                    &&& is_data::<T>() ==> forall|y: T| #[trigger]
                        (*tx)@.log[tvar.id()].vvar().value.holds(y) ==> y == *x
                }
            },
{
}

/// The first read of a variable that succeeds makes the transaction read from it, and not write to
/// it, whatever the transaction has done before. It logs a value that the variable has really held,
/// under the version that it had, which is not above the start, and gives that value.
pub proof fn first_read_is_logged_as_a_read<T: Send + Sync + 'static>(
    tvar: &TVar<T>,
    x: Arc<T>,
)
    ensures
        forall|tx: &mut Transaction|
            #[trigger] call_ensures(Transaction::read::<T>, (tx, tvar), Ok(x))
                && !(*tx)@.log.contains_key(tvar.id()) ==> {
                let lvar = (*final(tx))@.log[tvar.id()];
                &&& only_touches((*tx)@, (*final(tx))@, tvar.id())
                &&& (*final(tx))@.has_writes == (*tx)@.has_writes
                &&& (*final(tx))@.log.contains_key(tvar.id())
                &&& lvar.read()
                &&& !lvar.write()
                &&& lvar.svar() == tvar.svar()
                &&& lvar.vvar().version <= (*tx)@.version
                &&& lvar.vvar().value.holds(*x)
                &&& is_data::<T>() ==> forall|y: T| #[trigger]
                    lvar.vvar().value.holds(y) ==> y == *x
                &&& exists|n: nat|
                    {
                        &&& taken(tvar.svar().vvar, n)
                        &&& #[trigger] held(tvar.svar().vvar, n, lvar.vvar())
                        &&& stamps(tvar.svar().vvar).contains_key(n)
                        &&& stamps(tvar.svar().vvar)[n] == lvar.vvar().version
                    }
            },
{
}

/// A read fails for one reason alone: the variable is not in the log, and has been found under a
/// version above the start. It changes nothing then, and asks for another attempt straight away.
pub proof fn read_fails_only_on_a_later_version<T: Send + Sync + 'static>(
    tvar: &TVar<T>,
    e: StmControl,
)
    ensures
        forall|tx: &mut Transaction|
            #[trigger] call_ensures(Transaction::read::<T>, (tx, tvar), Err(e)) ==> {
                &&& e == StmControl::Failure
                &&& (*final(tx))@ == (*tx)@
                &&& !(*tx)@.log.contains_key(tvar.id())
                &&& exists|n: nat|
                    {
                        &&& #[trigger] taken(tvar.svar().vvar, n)
                        &&& stamps(tvar.svar().vvar).contains_key(n)
                        &&& stamps(tvar.svar().vvar)[n] > (*tx)@.version
                    }
            },
{
}

/// What has been found in the store decides a read: it fails exactly if that is above the start, and
/// changes nothing then; otherwise it gives that value, and the transaction reads from the variable
/// and does not write to it, whatever it has done before.
pub proof fn observed_value_decides_a_read<T: Send + Sync + 'static>(
    tvar: &TVar<T>,
    v: &VVar,
    r: Stm<Arc<T>>,
)
    ensures
        forall|tx: &mut Transaction|
            #[trigger] call_ensures(Transaction::observe::<T>, (tx, tvar, v), r) ==> {
                let lvar = (*final(tx))@.log[tvar.id()];
                &&& r is Err <==> v.version > (*tx)@.version
                &&& r matches Err(e) ==> e == StmControl::Failure && (*final(tx))@ == (*tx)@
                &&& r matches Ok(x) ==> {
                    &&& only_touches((*tx)@, (*final(tx))@, tvar.id())
                    &&& (*final(tx))@.has_writes == (*tx)@.has_writes
                    &&& (*final(tx))@.log.contains_key(tvar.id())
                    &&& lvar.read()
                    &&& !lvar.write()
                    &&& lvar.svar() == tvar.svar()
                    &&& lvar.vvar() == *v
                    &&& v.value.holds(*x)
                    &&& is_data::<T>() ==> forall|y: T| #[trigger] v.value.holds(y) ==> y == *x
                }
            },
{
}

/// A write does not fail. It makes the transaction write to the variable and leaves it reading from
/// the variable exactly if it did so before; and it touches no other variable.
pub proof fn write_is_logged_as_a_write<T: Send + Sync + 'static>(
    tvar: &TVar<T>,
    value: T,
    r: Stm<()>,
)
    ensures
        forall|tx: &mut Transaction|
            #[trigger] call_ensures(Transaction::write::<T>, (tx, tvar, value), r) ==> {
                let lvar = (*final(tx))@.log[tvar.id()];
                &&& r is Ok
                &&& only_touches((*tx)@, (*final(tx))@, tvar.id())
                &&& (*final(tx))@.has_writes
                &&& (*final(tx))@.log.contains_key(tvar.id())
                &&& lvar.write()
                &&& lvar.read() <==> (*tx)@.log.contains_key(tvar.id()) && (
                *tx)@.log[tvar.id()].read()
                &&& lvar.svar() == tvar.svar()
                &&& lvar.vvar().value.holds(value)
                &&& is_data::<T>() ==> forall|y: T| #[trigger]
                    lvar.vvar().value.holds(y) ==> y == value
            },
{
}

/// A write does not change what a commit compares with. A variable that was accessed before is in
/// conflict with the same stores after the write as before it. One that was not is in conflict with
/// exactly those that came after the start, whatever else the transaction has written.
pub proof fn write_keeps_what_is_in_conflict<T: Send + Sync + 'static>(
    tvar: &TVar<T>,
    value: T,
    r: Stm<()>,
    stored: Version,
)
    ensures
        forall|tx: &mut Transaction|
            #[trigger] call_ensures(Transaction::write::<T>, (tx, tvar, value), r) ==> {
                stored > (*final(tx))@.log[tvar.id()].vvar().version <==> if (
                *tx)@.log.contains_key(tvar.id()) {
                    stored > (*tx)@.log[tvar.id()].vvar().version
                } else {
                    stored > (*tx)@.version
                }
            },
{
}

/// What is written is read: a read after a write of the same variable gives the value, whatever came
/// before and whatever is committed meanwhile.
pub proof fn written_value_is_read<T: Send + Sync + 'static>(
    tvar: &TVar<T>,
    value: T,
    w: Stm<()>,
    r: Stm<Arc<T>>,
)
    requires
        is_data::<T>(),
    ensures
        forall|tx: &mut Transaction, later: &mut Transaction|
            {
                &&& #[trigger] call_ensures(Transaction::write::<T>, (tx, tvar, value), w)
                &&& #[trigger] call_ensures(Transaction::read::<T>, (later, tvar), r)
                &&& (*later)@ == (*final(tx))@
            } ==> r == Ok::<Arc<T>, StmControl>(Arc::new(value)),
{
}

/// The first alternative is the only one unless it has to be retried: if no run of it from here
/// would have to be, its result and the transaction that it leaves are those of the whole.
pub proof fn or_is_the_first_unless_it_retries<T, F, G>(f: F, g: G, r: Stm<T>) where
    F: FnOnce(&mut Transaction) -> Stm<T>,
    G: FnOnce(&mut Transaction) -> Stm<T>,

    ensures
        forall|tx: &mut Transaction|
            {
                &&& #[trigger] call_ensures(or::<F, G, T>, (tx, f, g), r)
                &&& forall|t: &mut Transaction, r1: Stm<T>|
                    (*t)@ == (*tx)@ && #[trigger] f.ensures((t,), r1) ==> r1 != Err::<
                        T,
                        StmControl,
                    >(StmControl::Retry)
            } ==> exists|t: &mut Transaction|
                {
                    &&& #[trigger] f.ensures((t,), r)
                    &&& (*t)@ == (*tx)@
                    &&& (*final(tx))@ == (*final(t))@
                },
{
}

/// If the first alternative has to be retried and the second one does not, then the whole is what
/// the second one makes of the original transaction, and nothing is left of the first: the result,
/// the start, the flag, and for every variable what the log has.
pub proof fn or_undoes_the_first_if_it_retries<T, F, G>(f: F, g: G, r: Stm<T>, id: ID) where
    F: FnOnce(&mut Transaction) -> Stm<T>,
    G: FnOnce(&mut Transaction) -> Stm<T>,

    ensures
        forall|tx: &mut Transaction|
            {
                &&& #[trigger] call_ensures(or::<F, G, T>, (tx, f, g), r)
                &&& r != Err::<T, StmControl>(StmControl::Retry)
                &&& forall|t: &mut Transaction, r1: Stm<T>|
                    (*t)@ == (*tx)@ && #[trigger] f.ensures((t,), r1) ==> r1 == Err::<
                        T,
                        StmControl,
                    >(StmControl::Retry)
            } ==> exists|t: &mut Transaction|
                {
                    &&& #[trigger] g.ensures((t,), r)
                    &&& (*t)@ == (*tx)@
                    &&& (*final(tx))@.version == (*final(t))@.version
                    &&& (*final(tx))@.has_writes == (*final(t))@.has_writes
                    &&& (*final(tx))@.empty_retry_wait_timeout == (
                    *final(t))@.empty_retry_wait_timeout
                    &&& (*final(tx))@.log.contains_key(id) == (*final(t))@.log.contains_key(id)
                    &&& (*final(tx))@.log.contains_key(id) ==> (*final(tx))@.log[id] == (
                    *final(t))@.log[id]
                },
{
}

/// What a retried first alternative has written is never committed: where the second one succeeds,
/// a variable is written afterwards only if the second one can have left it so by itself.
pub proof fn or_commits_no_write_of_a_retried_first<T, F, G>(f: F, g: G, x: T, id: ID) where
    F: FnOnce(&mut Transaction) -> Stm<T>,
    G: FnOnce(&mut Transaction) -> Stm<T>,

    ensures
        forall|tx: &mut Transaction|
            {
                &&& #[trigger] call_ensures(or::<F, G, T>, (tx, f, g), Ok(x))
                &&& forall|t: &mut Transaction, r1: Stm<T>|
                    (*t)@ == (*tx)@ && #[trigger] f.ensures((t,), r1) ==> r1 == Err::<
                        T,
                        StmControl,
                    >(StmControl::Retry)
                &&& forall|t: &mut Transaction, r2: Stm<T>|
                    (*t)@ == (*tx)@ && #[trigger] g.ensures((t,), r2) ==> !((
                    *final(t))@.log.contains_key(id) && (*final(t))@.log[id].write())
            } ==> !((*final(tx))@.log.contains_key(id) && (*final(tx))@.log[id].write()),
{
}

/// If both alternatives have to be retried, so has the whole, and it watches exactly what one of
/// them has read. What the log has of a variable comes from one of the two, and from the second
/// where that has read it; the start, the flag and the timeout are those that the second leaves.
pub proof fn or_watches_both_if_both_retry<T, F, G>(f: F, g: G) where
    F: FnOnce(&mut Transaction) -> Stm<T>,
    G: FnOnce(&mut Transaction) -> Stm<T>,

    ensures
        forall|tx: &mut Transaction|
            #[trigger] call_ensures(
                or::<F, G, T>,
                (tx, f, g),
                Err(StmControl::Retry),
            ) ==> exists|first: &mut Transaction, second: &mut Transaction|
                {
                    let (one, two, all) = ((*final(first))@, (*final(second))@, (*final(tx))@);
                    &&& #[trigger] f.ensures((first,), Err(StmControl::Retry))
                    &&& #[trigger] g.ensures((second,), Err(StmControl::Retry))
                    &&& (*first)@ == (*tx)@
                    &&& (*second)@ == (*tx)@
                    &&& all.version == two.version
                    &&& all.has_writes == two.has_writes
                    &&& all.empty_retry_wait_timeout == two.empty_retry_wait_timeout
                    &&& forall|id: ID|
                        {
                            &&& #[trigger] all.log.contains_key(id) <==> one.log.contains_key(id)
                                || two.log.contains_key(id)
                            &&& all.log.contains_key(id) && all.log[id].read() <==> (
                            one.log.contains_key(id) && one.log[id].read()) || (
                            two.log.contains_key(id) && two.log[id].read())
                            &&& all.log.contains_key(id) ==> all.log[id] == one.log[id]
                                || all.log[id] == two.log[id]
                            &&& two.log.contains_key(id) && (two.log[id].read()
                                || !one.log.contains_key(id)) ==> all.log[id] == two.log[id]
                            &&& one.log.contains_key(id) && !(two.log.contains_key(id)
                                && two.log[id].read()) ==> all.log[id] == one.log[id]
                        }
                },
{
}

/// A failure of the first alternative is that of the whole, whatever the second one would do.
pub proof fn or_returns_a_failure_at_once<T, F, G>(f: F, g: G, r: Stm<T>) where
    F: FnOnce(&mut Transaction) -> Stm<T>,
    G: FnOnce(&mut Transaction) -> Stm<T>,

    ensures
        forall|tx: &mut Transaction|
            {
                &&& #[trigger] call_ensures(or::<F, G, T>, (tx, f, g), r)
                &&& forall|t: &mut Transaction, r1: Stm<T>|
                    (*t)@ == (*tx)@ && #[trigger] f.ensures((t,), r1) ==> r1 == Err::<
                        T,
                        StmControl,
                    >(StmControl::Failure)
            } ==> r == Err::<T, StmControl>(StmControl::Failure),
{
}

/// A retry is asked for by `retry`, and by `guard` exactly where its condition is not met.
pub proof fn guard_retries_exactly_without_its_condition<T>(cond: bool, r: Stm<()>, s: Stm<T>)
    requires
        call_ensures(guard, (cond,), r),
        call_ensures(retry::<T>, (), s),
    ensures
        r is Ok <==> cond,
        r matches Err(e) ==> e == StmControl::Retry,
        s matches Err(e) && e == StmControl::Retry,
{
}

/// An abort carries the error that it was given, converted.
pub proof fn abort_carries_its_error<T, E1: Into<E2>, E2>(e: E1, r: StmResult<T, E2>)
    requires
        call_ensures(abort::<T, E1, E2>, (e,), r),
    ensures
        r matches Err(StmError::Abort(converted)) && call_ensures(E1::into, (e,), converted),
{
}

/// A result that cannot abort stays what it is.
pub proof fn control_changes_nothing<T, E>(result: Stm<T>, r: StmResult<T, E>)
    requires
        call_ensures(control::<T, E>, (result,), r),
    ensures
        result matches Ok(x) ==> r matches Ok(y) && y == x,
        result matches Err(e) ==> r matches Err(StmError::Control(c)) && c == e,
{
}

/// An attempt that was aborted ends the operation with its own error, whatever the transaction has
/// read or written.
pub proof fn abort_ends_with_its_error<E, X: Aux>(tx: Transaction, atx: X, e: E, r: Next<E>)
    requires
        call_ensures(give_up::<E, X>, (tx, atx, StmError::Abort(e)), r),
    ensures
        r == Next::Abort(e),
        call_ensures(X::rollback, (atx,), ()),
{
}

/// An attempt waits only if it has asked for a retry, ends only if it was aborted, and is repeated
/// straight away only if it has failed; and whichever it is, its auxiliary transaction has been
/// rolled back.
pub proof fn giving_up_does_what_was_asked<E, X: Aux>(
    tx: Transaction,
    atx: X,
    err: StmError<E>,
    r: Next<E>,
)
    requires
        call_ensures(give_up::<E, X>, (tx, atx, err), r),
    ensures
        r is Again <==> err == StmError::<E>::Control(StmControl::Failure),
        r is Wait <==> err == StmError::<E>::Control(StmControl::Retry),
        r is Abort <==> err is Abort,
        r matches Next::Abort(e) ==> err == StmError::Abort(e),
        call_ensures(X::rollback, (atx,), ()),
{
}

/// A queue has been signalled by a commit: nobody waits in it right after, everyone who waited has
/// been handed a true signal, and it remembers a version that is not below that of the commit.
pub open spec fn was_signalled(
    states: Map<nat, WaitQueue>,
    commit_version: Version,
    n: nat,
) -> bool {
    &&& states.contains_key(n)
    &&& states.contains_key(n + 1)
    &&& states[n + 1].channels().len() == 0
    &&& states[n + 1].record() == states[n].record()
    &&& states[n + 1].last_written() >= commit_version
    &&& states[n + 1].last_written() >= states[n].last_written()
    &&& states[n + 1].last_written() == commit_version || states[n + 1].last_written()
        == states[n].last_written()
    &&& forall|i: int|
        0 <= i < states[n].channels().len() ==> offered(#[trigger] states[n].channels()[i], true, true)
            || offered(states[n].channels()[i], true, false)
}

/// A transaction with writes that notifies has signalled the queue of every variable that it has
/// written, whatever the size of its log.
pub proof fn notify_signals_every_written_variable(
    tx: Transaction,
    commit_version: Version,
    id: ID,
)
    requires
        call_ensures(Transaction::notify, (tx, commit_version), ()),
        tx@.has_writes,
        tx@.log.contains_key(id),
        tx@.log[id].write(),
    ensures
        exists|n: nat| #[trigger]
            was_signalled(queue_states(tx@.log[id].svar().queue), commit_version, n),
{
    lemma_notified(tx@, commit_version, id);
}

proof fn lemma_notified(tx: TransactionView, commit_version: Version, id: ID)
    requires
        tx.has_writes,
        tx.log.contains_key(id),
        tx.log[id].write(),
        tx.wakes(commit_version),
    ensures
        exists|n: nat| #[trigger]
            was_signalled(queue_states(tx.log[id].svar().queue), commit_version, n),
{
    assert(tx.writes_to(id));
    let queue = tx.log[id].svar().queue;
    let n = choose|n: nat| notified_after(queue, commit_version, n);
    assert forall|i: int| 0 <= i < queue_states(queue)[n].channels().len() implies offered(
        #[trigger] queue_states(queue)[n].channels()[i],
        true,
        true,
    ) || offered(queue_states(queue)[n].channels()[i], true, false) by {
        let c = queue_states(queue)[n].channels()[i];
        assert(was_offered(c, true));
        let accepted = choose|accepted: bool| offered(c, true, accepted);
    }
    assert(was_signalled(queue_states(queue), commit_version, n));
}

/// Every finished attempt has been validated and has woken those that wait: where it returns its
/// value for a transaction with writes, there is a version, above the start and all that is logged,
/// that the clock has given. Every variable of the log, read or written, was found not to be newer
/// than logged; those that were written have been stored under that version and their queues
/// signalled with it, whatever the size of the log, and the others are as they were.
pub proof fn finished_attempt_has_stored_and_signalled<T, X: Aux, N: FnOnce() -> Version>(
    tx: Transaction,
    atx: X,
    value: T,
    next_version: N,
    r: (Option<T>, Option<N>),
)
    requires
        call_ensures(finish::<T, X, N>, (tx, atx, value, next_version), r),
        r.0 is Some,
        tx@.has_writes,
    ensures
        r.0 == Some(value),
        r.1 is None,
        call_ensures(X::commit, (atx,), true),
        exists|version: Version|
            {
                &&& version > tx@.version
                &&& #[trigger] next_version.ensures((), version)
                &&& forall|id: ID| #[trigger]
                    tx@.log.contains_key(id) ==> {
                        &&& version > tx@.log[id].vvar().version
                        &&& exists|n: nat| found_and_left(tx@.log[id], version, n)
                        &&& tx@.log[id].write() ==> exists|n: nat| #[trigger]
                            was_signalled(queue_states(tx@.log[id].svar().queue), version, n)
                    }
            },
{
    let version = choose|version: Version| #[trigger]
        tx@.commits(atx, next_version, Some(version)) && tx@.wakes(version);
    let seen = choose|seen: Map<ID, nat>|
        tx@.commits_seeing(seen, atx, next_version, Some(version));
    assert forall|id: ID| #[trigger] tx@.log.contains_key(id) implies {
        &&& version > tx@.log[id].vvar().version
        &&& exists|n: nat| found_and_left(tx@.log[id], version, n)
        &&& tx@.log[id].write() ==> exists|n: nat| #[trigger]
            was_signalled(queue_states(tx@.log[id].svar().queue), version, n)
    } by {
        assert(seen.contains_key(id));
        assert(found_and_left(tx@.log[id], version, seen[id]));
        if tx@.log[id].write() {
            lemma_notified(tx@, version, id);
        }
    }
}

/// An attempt that has only read is finished exactly if its auxiliary transaction has been
/// committed, and does not touch the clock.
pub proof fn read_only_attempt_leaves_the_clock<T, X: Aux, N: FnOnce() -> Version>(
    tx: Transaction,
    atx: X,
    value: T,
    next_version: N,
    r: (Option<T>, Option<N>),
)
    requires
        call_ensures(finish::<T, X, N>, (tx, atx, value, next_version), r),
        !tx@.has_writes,
    ensures
        call_ensures(X::commit, (atx,), r.0 is Some),
        r.0 matches Some(v) ==> v == value,
        r.1 == Some(next_version),
{
}

/// An attempt that cannot be finished has a reason: one of its variables was found under a version
/// above the logged one, and the auxiliary transaction has been rolled back; or the auxiliary
/// transaction could not be committed. It does not touch the clock.
pub proof fn unfinished_attempt_has_a_reason<T, X: Aux, N: FnOnce() -> Version>(
    tx: Transaction,
    atx: X,
    value: T,
    next_version: N,
    r: (Option<T>, Option<N>),
)
    requires
        call_ensures(finish::<T, X, N>, (tx, atx, value, next_version), r),
        r.0 is None,
    ensures
        r.1 == Some(next_version),
        !tx@.has_writes ==> call_ensures(X::commit, (atx,), false),
        tx@.has_writes ==> exists|seen: Map<ID, nat>| was_refused(tx@.log, seen, atx),
{
    if tx@.has_writes {
        lemma_was_refused(tx@, atx, next_version);
    }
}

proof fn lemma_refused<X: Aux, N: FnOnce() -> Version>(
    tx: TransactionView,
    atx: X,
    next_version: N,
)
    requires
        tx.has_writes,
        tx.commits(atx, next_version, None),
    ensures
        call_ensures(X::commit, (atx,), false) || {
            &&& call_ensures(X::rollback, (atx,), ())
            &&& exists|id: ID, n: nat|
                {
                    &&& tx.log.contains_key(id)
                    &&& #[trigger] taken(tx.log[id].svar().vvar, n)
                    &&& stamps(tx.log[id].svar().vvar)[n] > tx.log[id].vvar().version
                }
        },
{
    let seen = choose|seen: Map<ID, nat>| tx.commits_seeing(seen, atx, next_version, None);
    if !all_current(tx.log, seen) {
        let id = choose|id: ID| #[trigger]
            seen.contains_key(id) && !current(tx.log[id], seen[id]);
        assert(taken(tx.log[id].svar().vvar, seen[id]));
    }
}

/// Whatever the alternatives are, the whole ends as the first does, and that is not with a retry; or
/// the first has to be retried, and it ends as the second does, from the same transaction.
pub proof fn or_ends_as_one_of_its_alternatives<T, F, G>(f: F, g: G, r: Stm<T>) where
    F: FnOnce(&mut Transaction) -> Stm<T>,
    G: FnOnce(&mut Transaction) -> Stm<T>,

    ensures
        forall|tx: &mut Transaction| #[trigger]
            call_ensures(or::<F, G, T>, (tx, f, g), r) ==> {
                ||| exists|t: &mut Transaction|
                    {
                        &&& #[trigger] f.ensures((t,), r)
                        &&& r != Err::<T, StmControl>(StmControl::Retry)
                        &&& (*t)@ == (*tx)@
                        &&& (*final(tx))@ == (*final(t))@
                    }
                ||| exists|t: &mut Transaction, u: &mut Transaction|
                    {
                        &&& #[trigger] f.ensures((t,), Err(StmControl::Retry))
                        &&& #[trigger] g.ensures((u,), r)
                        &&& (*t)@ == (*tx)@
                        &&& (*u)@ == (*tx)@
                        &&& r != Err::<T, StmControl>(StmControl::Retry) ==> (*final(tx))@ == (
                        *final(u))@
                    }
            },
{
}

/// A commit without writes is that of the auxiliary transaction: it succeeds exactly if that does,
/// under the version of the start, and does not touch the clock.
pub proof fn commit_without_writes_is_the_auxiliary_one<X: Aux, N: FnOnce() -> Version>(
    tx: &Transaction,
    atx: X,
    next_version: N,
    r: (Option<Version>, Option<N>),
)
    requires
        call_ensures(Transaction::commit::<X, N>, (tx, atx, next_version), r),
        !tx@.has_writes,
    ensures
        call_ensures(X::commit, (atx,), r.0 is Some),
        r.0 matches Some(version) ==> version == tx@.version,
        r.1 == Some(next_version),
{
}

/// A variable was found, after `n` stores, under a version that is not above the logged one. If it
/// has been written, it is given back with the logged value as the one store after that; if not, as
/// it was found.
pub open spec fn found_and_left(lvar: LVar, version: Version, n: nat) -> bool {
    let lock = lvar.svar().vvar;
    &&& taken(lock, n)
    &&& stamps(lock).contains_key(n)
    &&& stamps(lock)[n] <= lvar.vvar().version
    &&& lvar.write() ==> {
        &&& held(lock, n + 1, VVar { version, value: lvar.vvar().value })
        &&& stamps(lock).contains_key(n + 1)
        &&& stamps(lock)[n + 1] == version
        &&& given_back(lock, n + 1)
    }
    &&& !lvar.write() ==> given_back(lock, n)
}

/// A commit that succeeds with writes has found every variable of its log, read or written, under a
/// version that is not above the logged one; has committed the auxiliary transaction; and has got
/// one version from the clock, above the start and above all that is logged. Each variable that was
/// written is given back with the logged value under that version, as the one store after what was
/// found, and each that was only read is given back as it was found.
pub proof fn successful_commit_has_found_nothing_newer<X: Aux, N: FnOnce() -> Version>(
    tx: &Transaction,
    atx: X,
    next_version: N,
    version: Version,
    clock: Option<N>,
)
    requires
        call_ensures(
            Transaction::commit::<X, N>,
            (tx, atx, next_version),
            (Some(version), clock),
        ),
        tx@.has_writes,
    ensures
        clock is None,
        call_ensures(X::commit, (atx,), true),
        next_version.ensures((), version),
        version > tx@.version,
        forall|id: ID| #[trigger]
            tx@.log.contains_key(id) ==> {
                &&& version > tx@.log[id].vvar().version
                &&& exists|n: nat| found_and_left(tx@.log[id], version, n)
            },
{
    let seen = choose|seen: Map<ID, nat>|
        tx@.commits_seeing(seen, atx, next_version, Some(version));
    assert forall|id: ID| #[trigger] tx@.log.contains_key(id) implies version
        > tx@.log[id].vvar().version && exists|n: nat|
        found_and_left(tx@.log[id], version, n) by {
        assert(seen.contains_key(id));
        assert(found_and_left(tx@.log[id], version, seen[id]));
    }
}

/// Locks of some variables of a log were taken, and given back as they were.
pub open spec fn only_looked_at(log: Map<ID, LVar>, seen: Map<ID, nat>) -> bool {
    forall|id: ID| #[trigger]
        seen.contains_key(id) ==> {
            &&& log.contains_key(id)
            &&& taken(log[id].svar().vvar, seen[id])
            &&& stamps(log[id].svar().vvar).contains_key(seen[id])
            &&& given_back(log[id].svar().vvar, seen[id])
        }
}

/// Why a commit with writes has failed: something newer was found in a variable of the log, and
/// nothing newer in any with a lower ID, and the auxiliary transaction has been rolled back; or
/// nothing newer was found in any, and the auxiliary transaction could not be committed. Either way
/// every lock that was taken is given back as it was.
pub open spec fn was_refused<X: Aux>(log: Map<ID, LVar>, seen: Map<ID, nat>, atx: X) -> bool {
    &&& only_looked_at(log, seen)
    &&& ({
        ||| {
            &&& call_ensures(X::commit, (atx,), false)
            &&& forall|id: ID| #[trigger]
                log.contains_key(id) ==> seen.contains_key(id) && stamps(
                    log[id].svar().vvar,
                )[seen[id]] <= log[id].vvar().version
        }
        ||| {
            &&& call_ensures(X::rollback, (atx,), ())
            &&& exists|id: ID|
                {
                    &&& #[trigger] seen.contains_key(id)
                    &&& stamps(log[id].svar().vvar)[seen[id]] > log[id].vvar().version
                    &&& forall|other: ID|
                        #[trigger] log.contains_key(other) && other < id ==> seen.contains_key(
                            other,
                        ) && stamps(log[other].svar().vvar)[seen[other]]
                            <= log[other].vvar().version
                }
        }
    })
}

proof fn lemma_was_refused<X: Aux, N: FnOnce() -> Version>(
    tx: TransactionView,
    atx: X,
    next_version: N,
)
    requires
        tx.has_writes,
        tx.commits(atx, next_version, None),
    ensures
        exists|seen: Map<ID, nat>| was_refused(tx.log, seen, atx),
{
    let seen = choose|seen: Map<ID, nat>| tx.commits_seeing(seen, atx, next_version, None);
    if !all_current(tx.log, seen) {
        let id = choose|id: ID| #[trigger]
            seen.contains_key(id) && !current(tx.log[id], seen[id]);
        assert(seen.contains_key(id));
    }
    assert(was_refused(tx.log, seen, atx));
}

/// A commit that fails with writes hands the clock back, and for one of two reasons alone. Either it
/// has found a variable of its log under a version above the logged one, and has rolled the
/// auxiliary transaction back; then it had found nothing newer in any variable with a lower ID.
/// Or it has found nothing newer in any of them, and the auxiliary transaction could not be
/// committed. Every lock that it had taken is given back as it was.
pub proof fn failed_commit_has_a_reason<X: Aux, N: FnOnce() -> Version>(
    tx: &Transaction,
    atx: X,
    next_version: N,
    clock: Option<N>,
)
    requires
        call_ensures(Transaction::commit::<X, N>, (tx, atx, next_version), (None, clock)),
        tx@.has_writes,
    ensures
        clock == Some(next_version),
        exists|seen: Map<ID, nat>| was_refused(tx@.log, seen, atx),
{
    lemma_was_refused(tx@, atx, next_version);
}

/// A commit of blind writes fails only because of a later commit: without an auxiliary transaction,
/// and with nothing in the log but variables under the version of the start, one of them has been
/// found under a version above the start.
pub proof fn blind_writes_fail_only_on_later_commits<N: FnOnce() -> Version>(
    tx: &Transaction,
    next_version: N,
    clock: Option<N>,
)
    requires
        call_ensures(Transaction::commit::<NoAux, N>, (tx, NoAux, next_version), (None, clock)),
        forall|id: ID| #[trigger]
            tx@.log.contains_key(id) ==> tx@.log[id].vvar().version == tx@.version,
    ensures
        exists|id: ID, n: nat|
            {
                &&& tx@.log.contains_key(id)
                &&& #[trigger] taken(tx@.log[id].svar().vvar, n)
                &&& stamps(tx@.log[id].svar().vvar)[n] > tx@.version
            },
{
    if tx@.has_writes {
        lemma_refused(tx@, NoAux, next_version);
        let (id, n) = choose|id: ID, n: nat|
            {
                &&& tx@.log.contains_key(id)
                &&& #[trigger] taken(tx@.log[id].svar().vvar, n)
                &&& stamps(tx@.log[id].svar().vvar)[n] > tx@.log[id].vvar().version
            };
        assert(tx@.log[id].vvar().version == tx@.version);
    }
}

/// The entries of a log are its variables, each one once, by increasing ID.
pub proof fn entries_are_the_log(tx: &Transaction, entries: Vec<(ID, &LVar)>, id: ID)
    requires
        call_ensures(Transaction::entries, (tx,), entries),
    ensures
        forall|i: int, j: int| 0 <= i < j < entries@.len() ==> entries@[i].0 < entries@[j].0,
        forall|i: int|
            0 <= i < entries@.len() ==> tx@.log.contains_key((#[trigger] entries@[i]).0)
                && tx@.log[entries@[i].0] == *entries@[i].1,
        tx@.log.contains_key(id) <==> exists|i: int|
            0 <= i < entries@.len() && (#[trigger] entries@[i]).0 == id,
{
}

/// Somebody has come to wait in a queue: behind everyone who waited and still listens. Nobody is
/// dropped but who has refused a pruning signal.
pub open spec fn has_come_to_wait(
    states: Map<nat, WaitQueue>,
    channel: int,
    n: nat,
) -> bool {
    &&& states.contains_key(n)
    &&& states.contains_key(n + 1)
    &&& states[n + 1].last_written() == states[n].last_written()
    &&& states[n + 1].channels().len() > 0
    &&& states[n + 1].channels().last() == channel
    &&& states[n + 1].record() >= states[n].record()
    &&& states[n + 1].channels().len() <= states[n].channels().len() + 1
    &&& states[n + 1].channels().len() <= states[n + 1].record() + 1
    &&& states[n].channels().len() <= states[n].record() ==> states[n + 1].channels()
        == states[n].channels().push(channel) && states[n + 1].record() == states[n].record()
    &&& forall|i: int|
        0 <= i < states[n].channels().len() ==> {
            ||| states[n + 1].channels().drop_last().contains(#[trigger] states[n].channels()[i])
            ||| offered(states[n].channels()[i], false, false)
        }
}

proof fn lemma_comes_to_wait(queue: Mutex<WaitQueue>, version: Version, channel: int, n: nat)
    requires
        subscribed_after(queue, version, channel, n),
    ensures
        has_come_to_wait(queue_states(queue), channel, n),
{
    let (pre, post) = (queue_states(queue)[n], queue_states(queue)[n + 1]);
    lemma_added(pre, channel, post);
}

proof fn lemma_added(pre: WaitQueue, channel: int, post: WaitQueue)
    requires
        pre.adds(channel, post),
    ensures
        post.last_written() == pre.last_written(),
        post.channels().len() > 0,
        post.channels().last() == channel,
        post.record() >= pre.record(),
        post.channels().len() <= pre.channels().len() + 1,
        post.channels().len() <= post.record() + 1,
        pre.channels().len() <= pre.record() ==> post.channels() == pre.channels().push(channel)
            && post.record() == pre.record(),
        forall|i: int|
            0 <= i < pre.channels().len() ==> {
                ||| post.channels().drop_last().contains(#[trigger] pre.channels()[i])
                ||| offered(pre.channels()[i], false, false)
            },
{
    let pruned = choose|pruned: WaitQueue|
        {
            &&& #[trigger] pre.prunes(pruned)
            &&& post.last_written() == pruned.last_written()
            &&& post.channels() == pruned.channels().push(channel)
            &&& post.record() == pruned.record()
        };
    assert(post.channels().drop_last() =~= pruned.channels());
    if pre.channels().len() > pre.record() {
        let replies = choose|replies: Seq<bool>| pre.pruned_by(replies, pruned);
        lemma_accepting_is_no_longer(pre.channels(), replies);
        assert forall|i: int| 0 <= i < pre.channels().len() implies (
        post.channels().drop_last().contains(#[trigger] pre.channels()[i]) || offered(
            pre.channels()[i],
            false,
            false,
        )) by {
            assert(offered(pre.channels()[i], false, replies[i]));
            if replies[i] {
                lemma_accepting_keeps(pre.channels(), replies, i);
            }
        }
    }
}

proof fn lemma_accepting_is_no_longer(channels: Seq<int>, replies: Seq<bool>)
    requires
        channels.len() == replies.len(),
    ensures
        accepting(channels, replies).len() <= channels.len(),
    decreases replies.len(),
{
    if replies.len() > 0 {
        lemma_accepting_is_no_longer(channels.drop_last(), replies.drop_last());
    }
}

/// What a transaction waits for: its timeout exactly if it has read nothing; nothing only if it has
/// found the queue of a variable that it has read signalled by a commit above its start; and a signal
/// only as a waiter in the queue of every variable that it has read, none of which it has found
/// signalled by such a commit.
pub open spec fn waits_properly(tx: TransactionView, r: WaitFor) -> bool {
    &&& r is Timeout <==> forall|id: ID| !(#[trigger] tx.log.contains_key(id) && tx.log[id].read())
    &&& match r {
        WaitFor::Timeout(timeout) => timeout == tx.empty_retry_wait_timeout,
        WaitFor::Nothing => exists|id: ID, n: nat|
            {
                &&& tx.log.contains_key(id)
                &&& tx.log[id].read()
                &&& #[trigger] queue_taken(tx.log[id].svar().queue, n)
                &&& queue_states(tx.log[id].svar().queue).contains_key(n)
                &&& queue_states(tx.log[id].svar().queue)[n].last_written() > tx.version
            },
        WaitFor::Signal(listener) => forall|id: ID|
            #[trigger] tx.log.contains_key(id) && tx.log[id].read() ==> exists|n: nat|
                {
                    &&& #[trigger] queue_taken(tx.log[id].svar().queue, n)
                    &&& queue_states(tx.log[id].svar().queue)[n].last_written() <= tx.version
                    &&& has_come_to_wait(
                        queue_states(tx.log[id].svar().queue),
                        listens_to(listener),
                        n,
                    )
                },
    }
}

proof fn lemma_waits_properly(tx: TransactionView, r: WaitFor)
    requires
        tx.waits_for(r),
    ensures
        waits_properly(tx, r),
{
    let seen = choose|seen: Map<ID, nat>| tx.waits_seeing(seen, r);
    match r {
        WaitFor::Timeout(timeout) => {
            assert forall|id: ID| !(#[trigger] tx.log.contains_key(id) && tx.log[id].read()) by {
                assert(!tx.reads_from(id));
            }
        },
        WaitFor::Nothing => {
            let id = choose|id: ID| #[trigger]
                tx.reads_from(id) && queue_states(
                    tx.log[id].svar().queue,
                )[seen[id]].last_written() > tx.version;
            assert(tx.log.contains_key(id));
            assert(queue_taken(tx.log[id].svar().queue, seen[id]));
        },
        WaitFor::Signal(listener) => {
            let some = choose|id: ID| tx.reads_from(id);
            assert(tx.log.contains_key(some));
            assert forall|id: ID|
                #[trigger] tx.log.contains_key(id) && tx.log[id].read() implies exists|n: nat|
                {
                    &&& #[trigger] queue_taken(tx.log[id].svar().queue, n)
                    &&& queue_states(tx.log[id].svar().queue)[n].last_written() <= tx.version
                    &&& has_come_to_wait(
                        queue_states(tx.log[id].svar().queue),
                        listens_to(listener),
                        n,
                    )
                } by {
                assert(tx.reads_from(id));
                lemma_comes_to_wait(
                    tx.log[id].svar().queue,
                    tx.version,
                    listens_to(listener),
                    seen[id],
                );
                assert(queue_taken(tx.log[id].svar().queue, seen[id]));
            }
        },
    }
}

/// An attempt that has asked for a retry waits for what its transaction can be woken by, and for
/// nothing else.
pub proof fn retried_attempt_waits_for_what_it_has_read<E, X: Aux>(
    tx: Transaction,
    atx: X,
    r: Next<E>,
)
    requires
        call_ensures(give_up::<E, X>, (tx, atx, StmError::Control(StmControl::Retry)), r),
    ensures
        r matches Next::Wait(wait) && waits_properly(tx@, wait),
        call_ensures(X::rollback, (atx,), ()),
{
    if let Next::Wait(wait) = r {
        lemma_waits_properly(tx@, wait);
    }
}

/// A subscription says what its transaction can be woken by, and nothing else.
pub proof fn subscription_is_to_what_was_read(tx: &Transaction, r: WaitFor)
    requires
        call_ensures(Transaction::subscribe, (tx,), r),
    ensures
        waits_properly(tx@, r),
{
    lemma_waits_properly(tx@, r);
}

/// A transaction that has read nothing waits for its timeout, and only such a transaction does.
pub proof fn timeout_is_for_those_that_have_read_nothing(tx: &Transaction, r: WaitFor)
    requires
        call_ensures(Transaction::subscribe, (tx,), r),
    ensures
        r is Timeout <==> forall|id: ID|
            !(#[trigger] tx@.log.contains_key(id) && tx@.log[id].read()),
        r matches WaitFor::Timeout(timeout) ==> timeout == tx@.empty_retry_wait_timeout,
{
    let seen = choose|seen: Map<ID, nat>| tx@.waits_seeing(seen, r);
    if r is Timeout {
        assert forall|id: ID| !(#[trigger] tx@.log.contains_key(id) && tx@.log[id].read()) by {
            assert(!tx@.reads_from(id));
        }
    } else {
        let id = choose|id: ID| tx@.reads_from(id);
        assert(tx@.log.contains_key(id) && tx@.log[id].read());
    }
}

/// A transaction waits for nothing only where it has read a variable whose queue it has found
/// signalled by a commit above its start.
pub proof fn nothing_is_waited_for_only_after_a_change(tx: &Transaction)
    requires
        call_ensures(Transaction::subscribe, (tx,), WaitFor::Nothing),
    ensures
        exists|id: ID, n: nat|
            {
                &&& tx@.log.contains_key(id)
                &&& tx@.log[id].read()
                &&& #[trigger] queue_taken(tx@.log[id].svar().queue, n)
                &&& queue_states(tx@.log[id].svar().queue).contains_key(n)
                &&& queue_states(tx@.log[id].svar().queue)[n].last_written() > tx@.version
            },
{
    let seen = choose|seen: Map<ID, nat>| tx@.waits_seeing(seen, WaitFor::Nothing);
    let id = choose|id: ID| #[trigger]
        tx@.reads_from(id) && queue_states(tx@.log[id].svar().queue)[seen[id]].last_written()
            > tx@.version;
    assert(queue_taken(tx@.log[id].svar().queue, seen[id]));
}

/// A transaction that is left to wait for a signal waits in the queue of every variable that it has
/// read, whatever else it has done, and no commit above its start had signalled any of them when it
/// came there.
pub proof fn signal_comes_from_everything_that_was_read(
    tx: &Transaction,
    listener: Listener,
    id: ID,
)
    requires
        call_ensures(Transaction::subscribe, (tx,), WaitFor::Signal(listener)),
        tx@.log.contains_key(id),
        tx@.log[id].read(),
    ensures
        exists|n: nat|
            {
                &&& #[trigger] queue_taken(tx@.log[id].svar().queue, n)
                &&& queue_states(tx@.log[id].svar().queue)[n].last_written() <= tx@.version
                &&& has_come_to_wait(
                    queue_states(tx@.log[id].svar().queue),
                    listens_to(listener),
                    n,
                )
            },
{
    let seen = choose|seen: Map<ID, nat>| tx@.waits_seeing(seen, WaitFor::Signal(listener));
    assert(tx@.reads_from(id));
    lemma_comes_to_wait(
        tx@.log[id].svar().queue,
        tx@.version,
        listens_to(listener),
        seen[id],
    );
    assert(queue_taken(tx@.log[id].svar().queue, seen[id]));
}

/// A retry after a first read watches the variable: it is not left to a timeout, and if it is left
/// to wait for a signal, then in the queue of that variable too, whatever was written before.
pub proof fn retry_after_a_read_watches_the_variable<T: Send + Sync + 'static>(
    tvar: &TVar<T>,
    x: Arc<T>,
    later: &Transaction,
    r: WaitFor,
)
    requires
        call_ensures(Transaction::subscribe, (later,), r),
    ensures
        forall|tx: &mut Transaction|
            {
                &&& #[trigger] call_ensures(Transaction::read::<T>, (tx, tvar), Ok(x))
                &&& !(*tx)@.log.contains_key(tvar.id())
                &&& (*final(tx))@ == later@
            } ==> {
                &&& !(r is Timeout)
                &&& r matches WaitFor::Signal(listener) ==> exists|n: nat| #[trigger]
                    has_come_to_wait(
                        queue_states(tvar.svar().queue),
                        listens_to(listener),
                        n,
                    )
            },
{
    if later@.log.contains_key(tvar.id()) && later@.log[tvar.id()].read()
        && later@.log[tvar.id()].svar() == tvar.svar() {
        timeout_is_for_those_that_have_read_nothing(later, r);
        if let WaitFor::Signal(listener) = r {
            signal_comes_from_everything_that_was_read(later, listener, tvar.id());
        }
    }
}

/// A commit after a first read leaves the variable alone: its lock is given back as it was found.
pub proof fn commit_after_a_read_stores_nothing<
    T: Send + Sync + 'static,
    X: Aux,
    N: FnOnce() -> Version,
>(
    tvar: &TVar<T>,
    x: Arc<T>,
    later: &Transaction,
    atx: X,
    next_version: N,
    version: Version,
    clock: Option<N>,
)
    requires
        call_ensures(
            Transaction::commit::<X, N>,
            (later, atx, next_version),
            (Some(version), clock),
        ),
        later@.has_writes,
    ensures
        forall|tx: &mut Transaction|
            {
                &&& #[trigger] call_ensures(Transaction::read::<T>, (tx, tvar), Ok(x))
                &&& !(*tx)@.log.contains_key(tvar.id())
                &&& (*final(tx))@ == later@
            } ==> exists|n: nat|
                {
                    &&& #[trigger] taken(tvar.svar().vvar, n)
                    &&& stamps(tvar.svar().vvar)[n] <= later@.log[tvar.id()].vvar().version
                    &&& given_back(tvar.svar().vvar, n)
                },
{
    successful_commit_has_found_nothing_newer(later, atx, next_version, version, clock);
    if later@.log.contains_key(tvar.id()) && later@.log[tvar.id()].svar() == tvar.svar()
        && !later@.log[tvar.id()].write() {
        let n = choose|n: nat| found_and_left(later@.log[tvar.id()], version, n);
        assert(taken(tvar.svar().vvar, n));
    }
}

/// Only a pruning signal is ignored by one that waits.
pub proof fn only_pruning_is_ignored(received: Option<bool>, r: bool)
    requires
        call_ensures(keep_waiting, (received,), r),
    ensures
        received is None ==> !r,
        received matches Some(signal) ==> r != signal,
{
}

/// There are updates exactly if one of the versions is above the start.
pub proof fn updates_are_above_the_start(
    last_written: &Vec<Version>,
    start: Version,
    r: bool,
    i: int,
)
    requires
        call_ensures(has_updates, (last_written, start), r),
    ensures
        r ==> exists|j: int| 0 <= j < last_written@.len() && #[trigger] last_written@[j] > start,
        !r && 0 <= i < last_written@.len() ==> last_written@[i] <= start,
{
}

/// A commit goes on exactly if everything in the log has been observed, and nothing above its logged
/// version.
pub proof fn commit_goes_on_if_nothing_is_newer(
    entries: &Vec<(ID, &LVar)>,
    observed: &Vec<Version>,
    r: bool,
)
    requires
        call_ensures(validates, (entries, observed), r),
    ensures
        observed@.len() != entries@.len() ==> !r,
        observed@.len() == entries@.len() && !r ==> exists|i: int|
            0 <= i < entries@.len() && observed@[i] > (#[trigger] entries@[i]).1.vvar().version,
        r ==> forall|i: int|
            0 <= i < entries@.len() ==> observed@[i] <= (#[trigger] entries@[i]).1.vvar().version,
{
}

/// What a read relates: a variable in the log gives what is logged and nothing changes; any other
/// is found in the store, and either that is above the start, and the read fails and changes
/// nothing, or it is logged as read and not as written, and given.
pub open spec fn relates_by_a_read<T>(
    pre: TransactionView,
    tvar: TVar<T>,
    post: TransactionView,
    r: Stm<Arc<T>>,
) -> bool {
    let lvar = post.log[tvar.id()];
    match r {
        Ok(x) => {
            &&& post.log.contains_key(tvar.id())
            &&& lvar.vvar().value.holds(*x)
            &&& is_data::<T>() ==> forall|y: T| #[trigger] lvar.vvar().value.holds(y) ==> y == *x
            &&& pre.log.contains_key(tvar.id()) ==> post == pre
            &&& !pre.log.contains_key(tvar.id()) ==> {
                &&& only_touches(pre, post, tvar.id())
                &&& post.has_writes == pre.has_writes
                &&& lvar.read()
                &&& !lvar.write()
                &&& lvar.svar() == tvar.svar()
                &&& lvar.vvar().version <= pre.version
                &&& exists|n: nat|
                    {
                        &&& taken(tvar.svar().vvar, n)
                        &&& #[trigger] held(tvar.svar().vvar, n, lvar.vvar())
                        &&& stamps(tvar.svar().vvar).contains_key(n)
                        &&& stamps(tvar.svar().vvar)[n] == lvar.vvar().version
                    }
            }
        },
        Err(e) => {
            &&& e == StmControl::Failure
            &&& post == pre
            &&& !pre.log.contains_key(tvar.id())
            &&& exists|n: nat|
                {
                    &&& #[trigger] taken(tvar.svar().vvar, n)
                    &&& stamps(tvar.svar().vvar).contains_key(n)
                    &&& stamps(tvar.svar().vvar)[n] > pre.version
                }
        },
    }
}

/// What a write relates: the variable is logged as written with the value, read exactly if it was
/// read before, and under the version of its first access, or of the start if this is the first.
pub open spec fn relates_by_a_write<T: 'static>(
    pre: TransactionView,
    tvar: TVar<T>,
    value: T,
    post: TransactionView,
) -> bool {
    let lvar = post.log[tvar.id()];
    &&& only_touches(pre, post, tvar.id())
    &&& post.has_writes
    &&& post.log.contains_key(tvar.id())
    &&& lvar.write()
    &&& lvar.read() <==> pre.log.contains_key(tvar.id()) && pre.log[tvar.id()].read()
    &&& lvar.svar() == tvar.svar()
    &&& lvar.vvar().value.holds(value)
    &&& is_data::<T>() ==> forall|y: T| #[trigger] lvar.vvar().value.holds(y) ==> y == value
    &&& pre.log.contains_key(tvar.id()) ==> lvar.vvar().version
        == pre.log[tvar.id()].vvar().version
    &&& !pre.log.contains_key(tvar.id()) ==> lvar.vvar().version == pre.version
}

/// The reads and writes of a `TVar` are those of the transaction: a read gives what is logged or
/// stored, a write logs its value and does not fail.
pub proof fn variable_reads_and_writes_through_the_transaction<T: Send + Sync + 'static>(
    tvar: &TVar<T>,
    value: T,
    r: Stm<Arc<T>>,
    w: Stm<()>,
)
    ensures
        forall|tx: &mut Transaction| #[trigger]
            call_ensures(TVar::<T>::read, (tvar, tx), r) ==> relates_by_a_read(
                (*tx)@,
                *tvar,
                (*final(tx))@,
                r,
            ),
        forall|tx: &mut Transaction| #[trigger]
            call_ensures(Transaction::read::<T>, (tx, tvar), r) ==> relates_by_a_read(
                (*tx)@,
                *tvar,
                (*final(tx))@,
                r,
            ),
        forall|tx: &mut Transaction| #[trigger]
            call_ensures(TVar::<T>::write, (tvar, tx, value), w) ==> w is Ok
                && relates_by_a_write((*tx)@, *tvar, value, (*final(tx))@),
        forall|tx: &mut Transaction| #[trigger]
            call_ensures(Transaction::write::<T>, (tx, tvar, value), w) ==> w is Ok
                && relates_by_a_write((*tx)@, *tvar, value, (*final(tx))@),
{
}

/// A read of a clone gives a clone of what a read gives, and does the same to the transaction.
pub proof fn clone_is_of_what_is_read<T: Send + Sync + Clone + 'static>(tvar: &TVar<T>, r: Stm<T>)
    ensures
        forall|tx: &mut Transaction| #[trigger]
            call_ensures(TVar::<T>::read_clone, (tvar, tx), r) ==> match r {
                Ok(c) => exists|x: T|
                    cloned(x, c) && #[trigger] relates_by_a_read(
                        (*tx)@,
                        *tvar,
                        (*final(tx))@,
                        Ok(Arc::new(x)),
                    ),
                Err(e) => relates_by_a_read((*tx)@, *tvar, (*final(tx))@, Err(e)),
            },
{
    assert forall|pre: TransactionView, post: TransactionView, c: T| #[trigger]
        pre.reads_clone(*tvar, post, c) implies exists|x: T|
        cloned(x, c) && #[trigger] relates_by_a_read(pre, *tvar, post, Ok(Arc::new(x))) by {
        let x = choose|x: T| #[trigger]
            pre.reads(*tvar, post, Ok(Arc::new(x))) && cloned(x, c);
        assert(relates_by_a_read(pre, *tvar, post, Ok(Arc::new(x))));
    }
}

/// An update reads the variable and writes what the function makes of a clone; if the read fails, it
/// fails, and changes nothing.
pub proof fn update_writes_what_is_made_of_the_value<
    T: Send + Sync + Clone + 'static,
    F: FnOnce(T) -> T,
>(tvar: &TVar<T>, f: F, r: Stm<()>)
    ensures
        forall|tx: &mut Transaction| #[trigger]
            call_ensures(TVar::<T>::update::<F>, (tvar, tx, f), r) ==> match r {
                Ok(()) => exists|mid: TransactionView, x: T, c: T, w: T|
                    {
                        &&& #[trigger] relates_by_a_read((*tx)@, *tvar, mid, Ok(Arc::new(x)))
                        &&& cloned(x, c)
                        &&& #[trigger] f.ensures((c,), w)
                        &&& relates_by_a_write(mid, *tvar, w, (*final(tx))@)
                    },
                Err(e) => relates_by_a_read((*tx)@, *tvar, (*final(tx))@, Err(e)),
            },
{
    assert forall|pre: TransactionView, post: TransactionView| #[trigger]
        pre.updates(*tvar, f, post, r) && r is Ok implies exists|mid: TransactionView, x: T, c: T, w: T|
        {
            &&& #[trigger] relates_by_a_read(pre, *tvar, mid, Ok(Arc::new(x)))
            &&& cloned(x, c)
            &&& #[trigger] f.ensures((c,), w)
            &&& relates_by_a_write(mid, *tvar, w, post)
        } by {
        let (mid, x, c, w) = choose|mid: TransactionView, x: T, c: T, w: T|
            {
                &&& #[trigger] pre.reads(*tvar, mid, Ok(Arc::new(x)))
                &&& cloned(x, c)
                &&& #[trigger] f.ensures((c,), w)
                &&& mid.writes(*tvar, w, post)
            };
        assert(relates_by_a_read(pre, *tvar, mid, Ok(Arc::new(x))));
    }
}

/// A modification reads the variable, writes the first thing that the function makes of a clone, and
/// returns the second; if the read fails, it fails, and changes nothing.
pub proof fn modify_writes_and_returns_what_is_made<
    T: Send + Sync + Clone + 'static,
    R,
    F: FnOnce(T) -> (T, R),
>(tvar: &TVar<T>, f: F, r: Stm<R>)
    ensures
        forall|tx: &mut Transaction| #[trigger]
            call_ensures(TVar::<T>::modify::<F, R>, (tvar, tx, f), r) ==> match r {
                Ok(result) => exists|mid: TransactionView, x: T, c: T, out: (T, R)|
                    {
                        &&& #[trigger] relates_by_a_read((*tx)@, *tvar, mid, Ok(Arc::new(x)))
                        &&& cloned(x, c)
                        &&& #[trigger] f.ensures((c,), out)
                        &&& relates_by_a_write(mid, *tvar, out.0, (*final(tx))@)
                        &&& out.1 == result
                    },
                Err(e) => relates_by_a_read((*tx)@, *tvar, (*final(tx))@, Err(e)),
            },
{
    assert forall|pre: TransactionView, post: TransactionView, result: R| #[trigger]
        pre.modifies(*tvar, f, post, Ok(result)) implies exists|
        mid: TransactionView,
        x: T,
        c: T,
        out: (T, R),
    |
        {
            &&& #[trigger] relates_by_a_read(pre, *tvar, mid, Ok(Arc::new(x)))
            &&& cloned(x, c)
            &&& #[trigger] f.ensures((c,), out)
            &&& relates_by_a_write(mid, *tvar, out.0, post)
            &&& out.1 == result
        } by {
        let (mid, x, c, out) = choose|mid: TransactionView, x: T, c: T, out: (T, R)|
            {
                &&& #[trigger] pre.reads(*tvar, mid, Ok(Arc::new(x)))
                &&& cloned(x, c)
                &&& #[trigger] f.ensures((c,), out)
                &&& mid.writes(*tvar, out.0, post)
                &&& result == out.1
            };
        assert(relates_by_a_read(pre, *tvar, mid, Ok(Arc::new(x))));
    }
}

/// A modification whose function goes on with the transaction hands it the transaction after the
/// read, and writes to what that leaves.
pub proof fn modify_with_goes_on_in_between<
    T: Send + Sync + Clone + 'static,
    R,
    F: FnOnce(&mut Transaction, T) -> (T, R),
>(tvar: &TVar<T>, f: F, r: Stm<R>)
    ensures
        forall|tx: &mut Transaction| #[trigger]
            call_ensures(TVar::<T>::modify_with::<F, R>, (tvar, tx, f), r) ==> match r {
                Ok(result) => exists|t: &mut Transaction, x: T, c: T, out: (T, R)|
                    {
                        &&& #[trigger] relates_by_a_read((*tx)@, *tvar, (*t)@, Ok(Arc::new(x)))
                        &&& cloned(x, c)
                        &&& #[trigger] f.ensures((t, c), out)
                        &&& relates_by_a_write((*final(t))@, *tvar, out.0, (*final(tx))@)
                        &&& out.1 == result
                    },
                Err(e) => relates_by_a_read((*tx)@, *tvar, (*final(tx))@, Err(e)),
            },
{
    assert forall|pre: TransactionView, post: TransactionView, c: T| #[trigger]
        pre.reads_clone(*tvar, post, c) implies exists|x: T|
        cloned(x, c) && #[trigger] relates_by_a_read(pre, *tvar, post, Ok(Arc::new(x))) by {
        let x = choose|x: T| #[trigger]
            pre.reads(*tvar, post, Ok(Arc::new(x))) && cloned(x, c);
        assert(relates_by_a_read(pre, *tvar, post, Ok(Arc::new(x))));
    }
}

/// A replacement gives what a read gives, and writes its value; if the read fails, it fails, and
/// changes nothing.
pub proof fn replace_gives_the_old_and_writes_the_new<T: Send + Sync + 'static>(
    tvar: &TVar<T>,
    value: T,
    r: Stm<Arc<T>>,
)
    ensures
        forall|tx: &mut Transaction| #[trigger]
            call_ensures(TVar::<T>::replace, (tvar, tx, value), r) ==> match r {
                Ok(x) => exists|mid: TransactionView|
                    #[trigger] relates_by_a_read((*tx)@, *tvar, mid, Ok(x)) && relates_by_a_write(
                        mid,
                        *tvar,
                        value,
                        (*final(tx))@,
                    ),
                Err(e) => relates_by_a_read((*tx)@, *tvar, (*final(tx))@, Err(e)),
            },
{
    assert forall|pre: TransactionView, post: TransactionView, x: Arc<T>| #[trigger]
        pre.replaces(*tvar, value, post, Ok(x)) implies exists|mid: TransactionView|
        #[trigger] relates_by_a_read(pre, *tvar, mid, Ok(x)) && relates_by_a_write(
            mid,
            *tvar,
            value,
            post,
        ) by {
        let mid = choose|mid: TransactionView| #[trigger]
            pre.reads(*tvar, mid, Ok(x)) && mid.writes(*tvar, value, post);
        assert(relates_by_a_read(pre, *tvar, mid, Ok(x)));
    }
}

/// A new variable has the ID that was next, and the source goes on to another one. It holds the value
/// that it was given, under version 0, and nobody waits for it.
pub proof fn new_variable_holds_its_value<T: Send + Sync + 'static>(value: T, tvar: TVar<T>)
    ensures
        forall|ids: &mut IdSource| #[trigger]
            call_ensures(TVar::<T>::new, (ids, value), tvar) ==> {
                &&& tvar.id() == (*ids).next
                &&& (*ids).next < ID::MAX ==> (*final(ids)).next == (*ids).next + 1
                &&& (*ids).next == ID::MAX ==> (*final(ids)).next == 0
                &&& is_fresh(tvar, value)
            },
{
}

/// A variable holds a value as its first, under version 0, and nobody waits for it yet.
pub open spec fn is_fresh<T: 'static>(tvar: TVar<T>, value: T) -> bool {
    let states = queue_states(tvar.svar().queue);
    &&& stamps(tvar.svar().vvar).contains_key(0)
    &&& stamps(tvar.svar().vvar)[0] == 0
    &&& exists|v: VVar|
        {
            &&& #[trigger] held(tvar.svar().vvar, 0, v)
            &&& v.version == 0
            &&& v.value.holds(value)
            &&& is_data::<T>() ==> forall|y: T| #[trigger] v.value.holds(y) ==> y == value
        }
    &&& states.contains_key(0)
    &&& states[0].last_written() == 0
    &&& states[0].channels().len() == 0
    &&& states[0].record() == 1
}

/// A variable that is made without a value holds the default one.
pub proof fn default_variable_holds_the_default<T: Default + Send + Sync + 'static>(tvar: TVar<T>)
    ensures
        forall|ids: &mut IdSource| #[trigger]
            call_ensures(TVar::<T>::default, (ids,), tvar) ==> {
                &&& tvar.id() == (*ids).next
                &&& (*ids).next < ID::MAX ==> (*final(ids)).next == (*ids).next + 1
                &&& (*ids).next == ID::MAX ==> (*final(ids)).next == 0
                &&& exists|value: T| #[trigger]
                    call_ensures(T::default, (), value) && is_fresh(tvar, value)
            },
{
    assert forall|value: T| #[trigger] tvar.svar().starts_with(value) implies is_fresh(
        tvar,
        value,
    ) by {}
}

/// The clock is moved by one, and shows what it gave.
pub proof fn clock_moves_by_one(clock: Clock, version: Version, shown: Version)
    ensures
        forall|c: &mut Clock| #[trigger]
            call_ensures(next_version, (c,), version) ==> version == (*c).now + 1 && (
            *final(c)).now == version,
        call_ensures(current_version, (&clock,), shown) ==> shown == clock.now,
{
}

/// Without an auxiliary transaction there is nothing to refuse a commit.
pub proof fn no_auxiliary_never_refuses(done: bool)
    requires
        call_ensures(NoAux::commit, (NoAux,), done),
    ensures
        done,
{
}

/// A value comes out of its versioned wrapping as it went in.
pub proof fn versioned_value_comes_out<T: Send + Sync + 'static>(
    version: Version,
    value: T,
    v: VVar,
    x: Arc<T>,
)
    requires
        call_ensures(VVar::new::<T>, (version, value), v),
        call_ensures(VVar::downcast::<T>, (&v,), x),
    ensures
        v.version == version,
        v.value.holds(value),
        v.value.holds(*x),
        is_data::<T>() ==> *x == value,
{
}

/// Some channels are those of others whose reply was that they accept, in the same order: `at` says
/// where each of them was, and none that accepted is missing.
pub open spec fn picks_accepting(
    channels: Seq<int>,
    replies: Seq<bool>,
    kept: Seq<int>,
    at: Seq<int>,
) -> bool {
    &&& at.len() == kept.len()
    &&& forall|j: int|
        0 <= j < at.len() ==> {
            &&& 0 <= #[trigger] at[j] < channels.len()
            &&& kept[j] == channels[at[j]]
            &&& replies[at[j]]
        }
    &&& forall|j: int, k: int| 0 <= j < k < at.len() ==> at[j] < at[k]
    &&& forall|i: int|
        0 <= i < channels.len() && #[trigger] replies[i] ==> exists|j: int|
            0 <= j < at.len() && at[j] == i
}

proof fn lemma_accepting_picks(channels: Seq<int>, replies: Seq<bool>)
    requires
        channels.len() == replies.len(),
    ensures
        exists|at: Seq<int>|
            picks_accepting(channels, replies, accepting(channels, replies), at),
    decreases replies.len(),
{
    if replies.len() == 0 {
        assert(picks_accepting(channels, replies, accepting(channels, replies), Seq::empty()));
    } else {
        let (c, r) = (channels.drop_last(), replies.drop_last());
        lemma_accepting_picks(c, r);
        let before = choose|at: Seq<int>| picks_accepting(c, r, accepting(c, r), at);
        let n = replies.len() - 1;
        let at = if replies.last() {
            before.push(n)
        } else {
            before
        };
        let kept = accepting(channels, replies);
        assert forall|i: int| 0 <= i < channels.len() && #[trigger] replies[i] implies exists|
            j: int,
        |
            0 <= j < at.len() && at[j] == i by {
            if i == n {
                assert(at[before.len() as int] == i);
            } else {
                assert(r[i] == replies[i]);
                let j = choose|j: int| 0 <= j < before.len() && before[j] == i;
                assert(at[j] == i);
            }
        }
        assert forall|j: int| 0 <= j < at.len() implies 0 <= #[trigger] at[j] < channels.len()
            && kept[j] == channels[at[j]] && replies[at[j]] by {
            if j < before.len() {
                assert(at[j] == before[j]);
                assert(c[before[j]] == channels[before[j]]);
                assert(r[before[j]] == replies[before[j]]);
            }
        }
        assert(picks_accepting(channels, replies, kept, at));
    }
}

/// Those that accept are kept, and no others, in their order.
pub proof fn accepting_are_kept_in_order(
    signalers: Vec<Signaler>,
    replies: &Vec<bool>,
    kept: Vec<Signaler>,
    channels: Seq<int>,
    kept_channels: Seq<int>,
)
    requires
        signalers@.len() == replies@.len(),
        call_ensures(keep_accepting, (signalers, replies), kept),
        channels.len() == signalers@.len(),
        forall|i: int| 0 <= i < channels.len() ==> channels[i] == channel_of(signalers@[i]),
        kept_channels.len() == kept@.len(),
        forall|i: int| 0 <= i < kept@.len() ==> kept_channels[i] == channel_of(kept@[i]),
    ensures
        exists|at: Seq<int>| picks_accepting(channels, replies@, kept_channels, at),
{
    assert(channels =~= channels_of(signalers@));
    assert(kept_channels =~= channels_of(kept@));
    lemma_accepting_picks(channels, replies@);
}

/// A new queue is empty.
pub proof fn new_queue_is_empty(queue: WaitQueue)
    ensures
        call_ensures(WaitQueue::new, (), queue) ==> {
            &&& queue.last_written() == 0
            &&& queue.channels().len() == 0
            &&& queue.record() == 1
        },
        call_ensures(<WaitQueue as Default>::default, (), queue) ==> {
            &&& queue.last_written() == 0
            &&& queue.channels().len() == 0
            &&& queue.record() == 1
        },
{
}

/// Whoever comes to wait waits behind the others. Up to the record, they all stay. Above it, each of
/// them is handed a pruning signal; those that accept stay, in their order, and the record becomes
/// their number if that is higher.
pub proof fn waiter_is_added_behind_the_others(s: Signaler)
    ensures
        forall|queue: &mut WaitQueue| #[trigger]
            call_ensures(WaitQueue::add, (queue, s), ()) ==> {
                let (pre, post) = (*queue, *final(queue));
                &&& post.last_written() == pre.last_written()
                &&& post.channels().len() > 0
                &&& post.channels().last() == channel_of(s)
                &&& pre.channels().len() <= pre.record() ==> {
                    &&& post.channels().drop_last() == pre.channels()
                    &&& post.record() == pre.record()
                }
                &&& pre.channels().len() > pre.record() ==> exists|
                    replies: Seq<bool>,
                    at: Seq<int>,
                |
                    {
                        &&& replies.len() == pre.channels().len()
                        &&& forall|i: int|
                            0 <= i < replies.len() ==> offered(
                                pre.channels()[i],
                                false,
                                #[trigger] replies[i],
                            )
                        &&& #[trigger] picks_accepting(
                            pre.channels(),
                            replies,
                            post.channels().drop_last(),
                            at,
                        )
                        &&& at.len() <= pre.record() ==> post.record() == pre.record()
                        &&& at.len() > pre.record() ==> post.record() == at.len()
                    }
            },
{
    assert forall|pre: WaitQueue, post: WaitQueue| #[trigger]
        pre.adds(channel_of(s), post) implies {
        &&& post.last_written() == pre.last_written()
        &&& post.channels().len() > 0
        &&& post.channels().last() == channel_of(s)
        &&& pre.channels().len() <= pre.record() ==> {
            &&& post.channels().drop_last() == pre.channels()
            &&& post.record() == pre.record()
        }
        &&& pre.channels().len() > pre.record() ==> exists|replies: Seq<bool>, at: Seq<int>|
            {
                &&& replies.len() == pre.channels().len()
                &&& forall|i: int|
                    0 <= i < replies.len() ==> offered(
                        pre.channels()[i],
                        false,
                        #[trigger] replies[i],
                    )
                &&& #[trigger] picks_accepting(
                    pre.channels(),
                    replies,
                    post.channels().drop_last(),
                    at,
                )
                &&& at.len() <= pre.record() ==> post.record() == pre.record()
                &&& at.len() > pre.record() ==> post.record() == at.len()
            }
    } by {
        let pruned = choose|pruned: WaitQueue|
            {
                &&& #[trigger] pre.prunes(pruned)
                &&& post.last_written() == pruned.last_written()
                &&& post.channels() == pruned.channels().push(channel_of(s))
                &&& post.record() == pruned.record()
            };
        assert(post.channels().drop_last() =~= pruned.channels());
        if pre.channels().len() > pre.record() {
            let replies = choose|replies: Seq<bool>| pre.pruned_by(replies, pruned);
            lemma_accepting_picks(pre.channels(), replies);
            let at = choose|at: Seq<int>|
                picks_accepting(
                    pre.channels(),
                    replies,
                    accepting(pre.channels(), replies),
                    at,
                );
            assert(picks_accepting(
                pre.channels(),
                replies,
                post.channels().drop_last(),
                at,
            ));
            assert forall|i: int| 0 <= i < replies.len() implies offered(
                pre.channels()[i],
                false,
                #[trigger] replies[i],
            ) by {
                assert(offered(pre.channels()[i], false, replies[i]));
            }
        }
    }
}

/// A notification hands everyone who waits a true signal, after which nobody waits; and the queue
/// remembers the higher of the two versions.
pub proof fn notification_signals_everyone(commit_version: Version)
    ensures
        forall|queue: &mut WaitQueue| #[trigger]
            call_ensures(WaitQueue::notify_all, (queue, commit_version), ()) ==> {
                let (pre, post) = (*queue, *final(queue));
                &&& post.channels().len() == 0
                &&& post.record() == pre.record()
                &&& post.last_written() >= commit_version
                &&& post.last_written() >= pre.last_written()
                &&& post.last_written() == commit_version || post.last_written()
                    == pre.last_written()
                &&& forall|i: int|
                    0 <= i < pre.channels().len() ==> offered(
                        #[trigger] pre.channels()[i],
                        true,
                        true,
                    ) || offered(pre.channels()[i], true, false)
            },
{
    assert forall|channel: int| #[trigger] was_offered(channel, true) implies offered(
        channel,
        true,
        true,
    ) || offered(channel, true, false) by {
        let accepted = choose|accepted: bool| offered(channel, true, accepted);
    }
}

/// A queue says what it remembers.
pub proof fn queue_says_what_it_remembers(queue: &WaitQueue, version: Version)
    requires
        call_ensures(WaitQueue::last_written_version, (queue,), version),
    ensures
        version == queue.last_written(),
{
}

/// An update that succeeds leaves the variable written, with what the function has made of a clone of
/// the value that was logged, or was found in the store if there was none; it is watched unless it
/// had only been written before; and no other variable is touched.
pub proof fn update_replaces_the_value<
    T: Send + Sync + Clone + 'static,
    F: FnOnce(T) -> T,
>(tvar: &TVar<T>, f: F, r: Stm<()>)
    ensures
        forall|tx: &mut Transaction|
            {
                &&& #[trigger] call_ensures(TVar::<T>::update::<F>, (tvar, tx, f), r)
                &&& r is Ok
            } ==> {
                let (pre, post) = ((*tx)@, (*final(tx))@);
                let id = tvar.id();
                &&& only_touches(pre, post, id)
                &&& post.has_writes
                &&& post.log.contains_key(id)
                &&& post.log[id].write()
                &&& post.log[id].read() <==> !pre.log.contains_key(id) || pre.log[id].read()
                &&& post.log[id].svar() == tvar.svar()
                &&& pre.log.contains_key(id) ==> post.log[id].vvar().version
                    == pre.log[id].vvar().version
                &&& exists|old_value: DynValue, x: T, c: T, w: T|
                    {
                        &&& #[trigger] old_value.holds(x)
                        &&& #[trigger] cloned(x, c)
                        &&& #[trigger] f.ensures((c,), w)
                        &&& post.log[id].vvar().value.holds(w)
                        &&& pre.log.contains_key(id) ==> old_value == pre.log[id].vvar().value
                        &&& !pre.log.contains_key(id) ==> {
                            let found = VVar {
                                version: post.log[id].vvar().version,
                                value: old_value,
                            };
                            &&& found.version <= pre.version
                            &&& exists|n: nat|
                                #[trigger] taken(tvar.svar().vvar, n) && held(tvar.svar().vvar, n, found)
                        }
                    }
            },
{
    assert forall|pre: TransactionView, post: TransactionView|
        #[trigger] pre.updates(*tvar, f, post, r) && r is Ok implies {
        let id = tvar.id();
        &&& only_touches(pre, post, id)
        &&& post.has_writes
        &&& post.log.contains_key(id)
        &&& post.log[id].write()
        &&& post.log[id].read() <==> !pre.log.contains_key(id) || pre.log[id].read()
        &&& post.log[id].svar() == tvar.svar()
        &&& pre.log.contains_key(id) ==> post.log[id].vvar().version
            == pre.log[id].vvar().version
        &&& exists|old_value: DynValue, x: T, c: T, w: T|
            {
                &&& #[trigger] old_value.holds(x)
                &&& #[trigger] cloned(x, c)
                &&& #[trigger] f.ensures((c,), w)
                &&& post.log[id].vvar().value.holds(w)
                &&& pre.log.contains_key(id) ==> old_value == pre.log[id].vvar().value
                &&& !pre.log.contains_key(id) ==> {
                    let found = VVar {
                        version: post.log[id].vvar().version,
                        value: old_value,
                    };
                    &&& found.version <= pre.version
                    &&& exists|n: nat| #[trigger] taken(tvar.svar().vvar, n) && held(tvar.svar().vvar, n, found)
                }
            }
    } by {
        let (mid, x, c, w) = choose|mid: TransactionView, x: T, c: T, w: T|
            {
                &&& #[trigger] pre.reads(*tvar, mid, Ok(Arc::new(x)))
                &&& cloned(x, c)
                &&& #[trigger] f.ensures((c,), w)
                &&& mid.writes(*tvar, w, post)
            };
        lemma_only_touches(pre, mid, post, tvar.id());
        if !pre.log.contains_key(tvar.id()) {
            let (n, v) = choose|n: nat, v: VVar|
                {
                    &&& taken(tvar.svar().vvar, n)
                    &&& #[trigger] held_at(tvar.svar().vvar, n, v)
                    &&& pre.observes(*tvar, v, mid, Ok(Arc::new(x)))
                };
            assert(v == VVar { version: post.log[tvar.id()].vvar().version, value: v.value });
            assert(taken(tvar.svar().vvar, n) && held(tvar.svar().vvar, n, v));
        }
        let old_value = mid.log[tvar.id()].vvar().value;
        assert(old_value.holds(x) && cloned(x, c));
    }
}

/// A modification that succeeds leaves the variable written, with the first thing that the function
/// has made of a clone of the value that was logged, or was found in the store if there was none, and
/// returns the second; it is watched unless it had only been written before; and no other variable is
/// touched.
pub proof fn modify_replaces_the_value<
    T: Send + Sync + Clone + 'static,
    R,
    F: FnOnce(T) -> (T, R),
>(tvar: &TVar<T>, f: F, r: Stm<R>)
    ensures
        forall|tx: &mut Transaction|
            {
                &&& #[trigger] call_ensures(TVar::<T>::modify::<F, R>, (tvar, tx, f), r)
                &&& r is Ok
            } ==> {
                let (pre, post) = ((*tx)@, (*final(tx))@);
                let id = tvar.id();
                &&& only_touches(pre, post, id)
                &&& post.has_writes
                &&& post.log.contains_key(id)
                &&& post.log[id].write()
                &&& post.log[id].read() <==> !pre.log.contains_key(id) || pre.log[id].read()
                &&& post.log[id].svar() == tvar.svar()
                &&& pre.log.contains_key(id) ==> post.log[id].vvar().version
                    == pre.log[id].vvar().version
                &&& exists|old_value: DynValue, x: T, c: T, out: (T, R)|
                    {
                        &&& #[trigger] old_value.holds(x)
                        &&& #[trigger] cloned(x, c)
                        &&& #[trigger] f.ensures((c,), out)
                        &&& post.log[id].vvar().value.holds(out.0)
                        &&& pre.log.contains_key(id) ==> old_value == pre.log[id].vvar().value
                        &&& !pre.log.contains_key(id) ==> {
                            let found = VVar {
                                version: post.log[id].vvar().version,
                                value: old_value,
                            };
                            &&& found.version <= pre.version
                            &&& exists|n: nat|
                                #[trigger] taken(tvar.svar().vvar, n) && held(tvar.svar().vvar, n, found)
                        }
                        &&& r == Ok::<R, StmControl>(out.1)
                    }
            },
{
    assert forall|pre: TransactionView, post: TransactionView|
        #[trigger] pre.modifies(*tvar, f, post, r) && r is Ok implies {
        let id = tvar.id();
        &&& only_touches(pre, post, id)
        &&& post.has_writes
        &&& post.log.contains_key(id)
        &&& post.log[id].write()
        &&& post.log[id].read() <==> !pre.log.contains_key(id) || pre.log[id].read()
        &&& post.log[id].svar() == tvar.svar()
        &&& pre.log.contains_key(id) ==> post.log[id].vvar().version
            == pre.log[id].vvar().version
        &&& exists|old_value: DynValue, x: T, c: T, out: (T, R)|
            {
                &&& #[trigger] old_value.holds(x)
                &&& #[trigger] cloned(x, c)
                &&& #[trigger] f.ensures((c,), out)
                &&& post.log[id].vvar().value.holds(out.0)
                &&& pre.log.contains_key(id) ==> old_value == pre.log[id].vvar().value
                &&& !pre.log.contains_key(id) ==> {
                    let found = VVar {
                        version: post.log[id].vvar().version,
                        value: old_value,
                    };
                    &&& found.version <= pre.version
                    &&& exists|n: nat| #[trigger] taken(tvar.svar().vvar, n) && held(tvar.svar().vvar, n, found)
                }
                &&& r == Ok::<R, StmControl>(out.1)
            }
    } by {
        let (mid, x, c, out) = choose|mid: TransactionView, x: T, c: T, out: (T, R)|
            {
                &&& #[trigger] pre.reads(*tvar, mid, Ok(Arc::new(x)))
                &&& cloned(x, c)
                &&& #[trigger] f.ensures((c,), out)
                &&& mid.writes(*tvar, out.0, post)
                &&& r->Ok_0 == out.1
            };
        lemma_only_touches(pre, mid, post, tvar.id());
        if !pre.log.contains_key(tvar.id()) {
            let (n, v) = choose|n: nat, v: VVar|
                {
                    &&& taken(tvar.svar().vvar, n)
                    &&& #[trigger] held_at(tvar.svar().vvar, n, v)
                    &&& pre.observes(*tvar, v, mid, Ok(Arc::new(x)))
                };
            assert(v == VVar { version: post.log[tvar.id()].vvar().version, value: v.value });
            assert(taken(tvar.svar().vvar, n) && held(tvar.svar().vvar, n, v));
        }
        let old_value = mid.log[tvar.id()].vvar().value;
        assert(old_value.holds(x) && cloned(x, c));
    }
}

/// A replacement that succeeds leaves the variable written with its value, and returns what was
/// logged, or was found in the store if there was none; it is watched unless it had only been written
/// before; and no other variable is touched.
pub proof fn replace_returns_the_value_before<T: Send + Sync + 'static>(
    tvar: &TVar<T>,
    value: T,
    x: Arc<T>,
)
    ensures
        forall|tx: &mut Transaction| #[trigger]
            call_ensures(TVar::<T>::replace, (tvar, tx, value), Ok(x)) ==> {
                let (pre, post) = ((*tx)@, (*final(tx))@);
                let id = tvar.id();
                &&& only_touches(pre, post, id)
                &&& post.has_writes
                &&& post.log.contains_key(id)
                &&& post.log[id].write()
                &&& post.log[id].read() <==> !pre.log.contains_key(id) || pre.log[id].read()
                &&& post.log[id].svar() == tvar.svar()
                &&& post.log[id].vvar().value.holds(value)
                &&& pre.log.contains_key(id) ==> {
                    &&& post.log[id].vvar().version == pre.log[id].vvar().version
                    &&& pre.log[id].vvar().value.holds(*x)
                }
                &&& !pre.log.contains_key(id) ==> {
                    &&& post.log[id].vvar().version <= pre.version
                    &&& exists|found: VVar, n: nat|
                        {
                            &&& taken(tvar.svar().vvar, n)
                            &&& #[trigger] held(tvar.svar().vvar, n, found)
                            &&& found.version == post.log[id].vvar().version
                            &&& found.value.holds(*x)
                        }
                }
            },
{
    assert forall|pre: TransactionView, post: TransactionView| #[trigger]
        pre.replaces(*tvar, value, post, Ok(x)) implies {
        let id = tvar.id();
        &&& only_touches(pre, post, id)
        &&& post.has_writes
        &&& post.log.contains_key(id)
        &&& post.log[id].write()
        &&& post.log[id].read() <==> !pre.log.contains_key(id) || pre.log[id].read()
        &&& post.log[id].svar() == tvar.svar()
        &&& post.log[id].vvar().value.holds(value)
        &&& pre.log.contains_key(id) ==> {
            &&& post.log[id].vvar().version == pre.log[id].vvar().version
            &&& pre.log[id].vvar().value.holds(*x)
        }
        &&& !pre.log.contains_key(id) ==> {
            &&& post.log[id].vvar().version <= pre.version
            &&& exists|found: VVar, n: nat|
                {
                    &&& taken(tvar.svar().vvar, n)
                    &&& #[trigger] held(tvar.svar().vvar, n, found)
                    &&& found.version == post.log[id].vvar().version
                    &&& found.value.holds(*x)
                }
        }
    } by {
        let mid = choose|mid: TransactionView| #[trigger]
            pre.reads(*tvar, mid, Ok(x)) && mid.writes(*tvar, value, post);
        lemma_only_touches(pre, mid, post, tvar.id());
        if !pre.log.contains_key(tvar.id()) {
            let (n, v) = choose|n: nat, v: VVar|
                {
                    &&& taken(tvar.svar().vvar, n)
                    &&& #[trigger] held_at(tvar.svar().vvar, n, v)
                    &&& pre.observes(*tvar, v, mid, Ok(x))
                };
            assert(v == VVar { version: post.log[tvar.id()].vvar().version, value: v.value });
            assert(taken(tvar.svar().vvar, n) && held(tvar.svar().vvar, n, v));
        }
    }
}

/// Whatever is made of a variable fails for the one reason that a read does, and changes nothing then.
pub proof fn changes_fail_as_reads_do<
    T: Send + Sync + Clone + 'static,
    R,
    F: FnOnce(T) -> T,
    G: FnOnce(T) -> (T, R),
    H: FnOnce(&mut Transaction, T) -> (T, R),
>(tvar: &TVar<T>, value: T, f: F, g: G, h: H, e: StmControl)
    ensures
        forall|tx: &mut Transaction|
            {
                ||| #[trigger] call_ensures(TVar::<T>::read_clone, (tvar, tx), Err(e))
                ||| #[trigger] call_ensures(TVar::<T>::read, (tvar, tx), Err(e))
                ||| #[trigger] call_ensures(TVar::<T>::replace, (tvar, tx, value), Err(e))
                ||| #[trigger] call_ensures(TVar::<T>::update::<F>, (tvar, tx, f), Err(e))
                ||| #[trigger] call_ensures(TVar::<T>::modify::<G, R>, (tvar, tx, g), Err(e))
                ||| #[trigger] call_ensures(TVar::<T>::modify_with::<H, R>, (tvar, tx, h), Err(e))
            } ==> {
                &&& e == StmControl::Failure
                &&& (*final(tx))@ == (*tx)@
                &&& !(*tx)@.log.contains_key(tvar.id())
                &&& exists|n: nat|
                    {
                        &&& #[trigger] taken(tvar.svar().vvar, n)
                        &&& stamps(tvar.svar().vvar).contains_key(n)
                        &&& stamps(tvar.svar().vvar)[n] > (*tx)@.version
                    }
            },
{
}

/// Copies are what they are copies of.
pub proof fn copies_are_the_same<T: 'static>(
    tx: Transaction,
    tx2: Transaction,
    tvar: TVar<T>,
    tvar2: TVar<T>,
    lvar: LVar,
    lvar2: LVar,
    v: VVar,
    v2: VVar,
    queue: WaitQueue,
    queue2: WaitQueue,
)
    ensures
        call_ensures(<Transaction as Clone>::clone, (&tx,), tx2) ==> tx2@ == tx@,
        call_ensures(<TVar<T> as Clone>::clone, (&tvar,), tvar2) ==> tvar2 == tvar,
        call_ensures(<LVar as Clone>::clone, (&lvar,), lvar2) ==> lvar2 == lvar,
        call_ensures(<VVar as Clone>::clone, (&v,), v2) ==> v2 == v,
        call_ensures(<WaitQueue as Clone>::clone, (&queue,), queue2) ==> {
            &&& queue2.last_written() == queue.last_written()
            &&& queue2.channels() == queue.channels()
            &&& queue2.record() == queue.record()
        },
{
}

/// Clocks and sources of IDs start from zero, and a logged variable is outdated by exactly the
/// versions above its own.
pub proof fn counting_starts_from_zero(
    clock: Clock,
    ids: IdSource,
    lvar: LVar,
    observed: Version,
    r: bool,
)
    ensures
        call_ensures(Clock::new, (), clock) ==> clock.now == 0,
        call_ensures(IdSource::new, (), ids) ==> ids.next == 0,
        call_ensures(LVar::outdated_by, (&lvar, observed), r) ==> r == (observed
            > lvar.vvar().version),
{
}

/// Calls are accepted whatever the transaction has done: a write always, a read and everything that
/// reads where the ID in the log means the variable, and what ends a transaction always, but for a
/// clock that is behind.
pub proof fn calls_are_accepted<T: Send + Sync + 'static, E, X: Aux, N: FnOnce() -> Version>(
    tvar: &TVar<T>,
    value: T,
    tx: Transaction,
    atx: X,
    err: StmError<E>,
    next_version: N,
    version: Version,
)
    ensures
        forall|t: &mut Transaction| #[trigger]
            call_requires(Transaction::write::<T>, (t, tvar, value)),
        forall|t: &mut Transaction|
            !(*t)@.log.contains_key(tvar.id()) || (*t)@.log[tvar.id()].svar() == tvar.svar()
                ==> #[trigger] call_requires(Transaction::read::<T>, (t, tvar)),
        call_requires(Transaction::subscribe, (&tx,)),
        call_requires(Transaction::notify, (tx, version)),
        call_requires(give_up::<E, X>, (tx, atx, err)),
        next_version.requires(()) && (forall|v: Version| #[trigger]
            next_version.ensures((), v) ==> v > tx@.version && forall|id: ID| #[trigger]
                tx@.log.contains_key(id) ==> v > tx@.log[id].vvar().version) ==> {
            &&& call_requires(Transaction::commit::<X, N>, (&tx, atx, next_version))
            &&& call_requires(finish::<T, X, N>, (tx, atx, value, next_version))
        },
{
}

/// A finished attempt wakes whoever waits for one of its variables. Take a transaction that has read
/// a variable and is left to wait for a signal, and an attempt that has written the variable, among
/// whatever others, and is finished under a version above the start of the first: then the listener
/// has been handed a true signal, unless it has refused one.
pub proof fn finished_attempt_wakes_those_that_wait<T, X: Aux, N: FnOnce() -> Version>(
    waiting: &Transaction,
    listener: Listener,
    tx: Transaction,
    atx: X,
    value: T,
    next_version: N,
    clock: Option<N>,
    id: ID,
)
    requires
        call_ensures(Transaction::subscribe, (waiting,), WaitFor::Signal(listener)),
        waiting@.log.contains_key(id),
        waiting@.log[id].read(),
        call_ensures(finish::<T, X, N>, (tx, atx, value, next_version), (Some(value), clock)),
        tx@.has_writes,
        tx@.log.contains_key(id),
        tx@.log[id].write(),
        tx@.log[id].svar() == waiting@.log[id].svar(),
        forall|v: Version| #[trigger] next_version.ensures((), v) ==> v > waiting@.version,
    ensures
        offered(listens_to(listener), true, true) || offered(listens_to(listener), true, false)
            || offered(listens_to(listener), false, false),
{
    let version = choose|version: Version| #[trigger]
        tx@.commits(atx, next_version, Some(version)) && tx@.wakes(version);
    assert(waiting@.reads_from(id) && tx@.writes_to(id));
    commit_wakes_waiting_transaction(waiting@, listener, tx@, version, id);
    let channel = listens_to(listener);
    if was_offered(channel, true) {
        let accepted = choose|accepted: bool| offered(channel, true, accepted);
    }
}

} // verus!
