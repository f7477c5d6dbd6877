//! What holds of the library as a whole.

use crate::auxtx::{Aux, NoAux};
use crate::channel::{listens_to, offered, Listener};
use crate::locks::{given_back, held_at, increasing, queue_states, rises, stamps, well_kept};
use crate::ops::{as_control, either, finishes, gives_way, Next, Outcome};
use crate::transaction::{
    all_current, current, notified_after, some_outdated, subscribed_after, TransactionView, WaitFor,
};
use crate::value::is_data;
use crate::vars::{accepting, id_after, was_offered, LVar, TVar, VVar, WaitQueue, ID};
use crate::version::{Clock, Version};
use crate::{Stm, StmControl, StmError};
use parking_lot::{Mutex, RwLock};
use std::sync::Arc;
use vstd::prelude::*;

verus! {

/// Variables do not share IDs: one source hands out as many different IDs as there are, before any
/// of them comes again.
pub proof fn ids_do_not_repeat(first: ID, m: nat, n: nat)
    requires
        m < n <= m + ID::MAX,
    ensures
        id_after(first, m) != id_after(first, n),
{
}

/// A transaction reads what it has written: whatever was committed in the meantime, a read after a
/// write gives what the log holds by then, which for plain data is the very value that was written,
/// and leaves the transaction as it is.
pub proof fn read_returns_own_write<T: 'static>(
    pre: TransactionView,
    tvar: TVar<T>,
    value: T,
    written: TransactionView,
    post: TransactionView,
    r: Stm<Arc<T>>,
)
    requires
        pre.writes(tvar, value, written),
        written.reads(tvar, post, r),
    ensures
        r matches Ok(x) && written.log[tvar.id()].vvar().value.holds(*x),
        written.log[tvar.id()].vvar().value.holds(value),
        is_data::<T>() ==> r == Ok::<Arc<T>, StmControl>(Arc::new(value)),
        post == written,
{
}

/// Reads are repeatable: a second read of a variable gives what the log holds since the first,
/// whatever was committed in the meantime, which for plain data is the very value that the first
/// gave, and leaves the transaction as it is.
pub proof fn reads_are_repeatable<T>(
    pre: TransactionView,
    tvar: TVar<T>,
    x: Arc<T>,
    mid: TransactionView,
    post: TransactionView,
    r: Stm<Arc<T>>,
)
    requires
        pre.reads(tvar, mid, Ok(x)),
        mid.reads(tvar, post, r),
    ensures
        r matches Ok(y) && mid.log[tvar.id()].vvar().value.holds(*y),
        mid.log[tvar.id()].vvar().value.holds(*x),
        is_data::<T>() ==> r == Ok::<Arc<T>, StmControl>(x),
        post == mid,
{
}

/// A read or a write of one variable leaves what the log has of every other.
pub proof fn other_variables_are_left_alone<T: 'static>(
    pre: TransactionView,
    tvar: TVar<T>,
    value: T,
    r: Stm<Arc<T>>,
    post: TransactionView,
    id: ID,
)
    requires
        pre.reads(tvar, post, r) || pre.writes(tvar, value, post),
        id != tvar.id(),
    ensures
        post.log.contains_key(id) == pre.log.contains_key(id),
        pre.log.contains_key(id) ==> post.log[id] == pre.log[id],
{
}

/// A failed read leaves the transaction as it is.
pub proof fn failed_read_changes_nothing<T>(
    pre: TransactionView,
    tvar: TVar<T>,
    e: StmControl,
    post: TransactionView,
)
    requires
        pre.reads(tvar, post, Err(e)),
    ensures
        post == pre,
        e == StmControl::Failure,
{
}

/// The log goes on meaning the right variables: after an access to one variable it means the same
/// by the ID of any other that it meant before, as long as different variables have different IDs.
pub proof fn coherence_is_kept<T: 'static, U>(
    pre: TransactionView,
    tvar: TVar<T>,
    value: T,
    r: Stm<Arc<T>>,
    post: TransactionView,
    other: TVar<U>,
)
    requires
        pre.coherent(tvar),
        pre.coherent(other),
        pre.reads(tvar, post, r) || pre.writes(tvar, value, post),
        tvar.id() == other.id() ==> tvar.svar() == other.svar(),
    ensures
        post.coherent(other),
{
}

/// Nothing in a log is newer than the start of the transaction.
pub open spec fn within_start(tx: TransactionView) -> bool {
    forall|id: ID| #[trigger]
        tx.log.contains_key(id) ==> tx.log[id].vvar().version <= tx.version
}

/// A transaction never holds anything that was committed after it started: this is so at the
/// start, and every read and every write keeps it.
pub proof fn log_stays_within_start<T: 'static>(
    version: Version,
    pre: TransactionView,
    tvar: TVar<T>,
    value: T,
    r: Stm<Arc<T>>,
    post: TransactionView,
)
    requires
        within_start(pre),
        pre.reads(tvar, post, r) || pre.writes(tvar, value, post),
    ensures
        within_start(TransactionView::starts(version)),
        within_start(post),
{
    let id = tvar.id();
    assert forall|other: ID| #[trigger]
        post.log.contains_key(other) implies post.log[other].vvar().version <= post.version by {
        if other != id {
            assert(pre.log.contains_key(other));
        } else if pre.log.contains_key(id) {
            assert(pre.log[id].vvar().version <= pre.version);
        }
    }
}

/// An alternative that is added to a transaction keeps it within its start.
pub proof fn absorbing_stays_within_start(tx: TransactionView, first: TransactionView)
    requires
        within_start(tx),
        within_start(first),
        tx.version == first.version,
    ensures
        within_start(tx.absorbs(first)),
{
    let all = tx.absorbs(first);
    assert forall|id: ID| #[trigger]
        all.log.contains_key(id) implies all.log[id].vvar().version <= all.version by {
        assert(tx.log.contains_key(id) || first.log.contains_key(id));
    }
}

/// The transaction has a write in its log exactly if it says so.
pub open spec fn flag_is_right(tx: TransactionView) -> bool {
    tx.has_writes <==> exists|id: ID| tx.writes_to(id)
}

/// A transaction knows whether it has written: this is so at the start, and every read and every
/// write keeps it.
pub proof fn flag_stays_right<T: 'static>(
    version: Version,
    pre: TransactionView,
    tvar: TVar<T>,
    value: T,
    r: Stm<Arc<T>>,
    post: TransactionView,
)
    requires
        flag_is_right(pre),
        pre.reads(tvar, post, r) || pre.writes(tvar, value, post),
    ensures
        flag_is_right(TransactionView::starts(version)),
        flag_is_right(post),
{
    let id = tvar.id();
    if pre.writes(tvar, value, post) {
        assert(post.writes_to(id));
    } else {
        if pre.has_writes {
            let old_id = choose|old_id: ID| pre.writes_to(old_id);
            assert(post.writes_to(old_id));
        }
        assert forall|other: ID| post.writes_to(other) implies pre.writes_to(other) by {
            if other == id && !pre.log.contains_key(id) && r is Ok {
                assert(!post.log[id].write());
            }
        }
    }
}

/// If two alternatives have both to be retried, the retry reacts to a change of every variable
/// that either of them has read, and to no other.
pub proof fn retry_watches_both_alternatives(
    second: TransactionView,
    first: TransactionView,
    id: ID,
)
    ensures
        second.absorbs(first).reads_from(id) <==> second.reads_from(id) || first.reads_from(id),
{
}

/// Everything in a log has been read or written.
pub open spec fn all_accessed(tx: TransactionView) -> bool {
    forall|id: ID| #[trigger]
        tx.log.contains_key(id) ==> tx.log[id].read() || tx.log[id].write()
}

/// Nothing gets into a log but by a read or a write: this is so at the start, and every read, every
/// write and every alternative that is added keeps it.
pub proof fn log_holds_what_was_accessed<T: 'static>(
    version: Version,
    pre: TransactionView,
    tvar: TVar<T>,
    value: T,
    r: Stm<Arc<T>>,
    first: TransactionView,
    post: TransactionView,
)
    requires
        all_accessed(pre),
        all_accessed(first),
        pre.reads(tvar, post, r) || pre.writes(tvar, value, post) || post == pre.absorbs(first),
    ensures
        all_accessed(TransactionView::starts(version)),
        all_accessed(post),
{
    assert forall|id: ID| #[trigger] post.log.contains_key(id) implies post.log[id].read()
        || post.log[id].write() by {
        if pre.log.contains_key(id) {
            assert(pre.log[id].read() || pre.log[id].write());
        }
        if first.log.contains_key(id) {
            assert(first.log[id].read() || first.log[id].write());
        }
    }
}

/// What a transaction has read stays read, so that a retry goes on watching it: every read, every
/// write and every alternative that is added keeps it.
pub proof fn reads_are_not_forgotten<T: 'static>(
    pre: TransactionView,
    tvar: TVar<T>,
    value: T,
    r: Stm<Arc<T>>,
    first: TransactionView,
    post: TransactionView,
    id: ID,
)
    requires
        pre.reads(tvar, post, r) || pre.writes(tvar, value, post) || post == pre.absorbs(first),
        pre.reads_from(id),
    ensures
        post.reads_from(id),
{
}

/// An alternative that does nothing but retry.
pub open spec fn gives_up<T>(pre: TransactionView) -> Outcome<T> {
    Outcome { tx: pre, result: Err(StmControl::Retry) }
}

/// Two outcomes are the same to whoever runs the transaction: the result is, and so is the
/// transaction; or, if it has to be retried, the variables that it watches are.
pub open spec fn same_to_runner<T>(a: Outcome<T>, b: Outcome<T>) -> bool {
    &&& a.result == b.result
    &&& if a.result == Err::<T, StmControl>(StmControl::Retry) {
        forall|id: ID| a.tx.reads_from(id) <==> b.tx.reads_from(id)
    } else {
        a.tx == b.tx
    }
}

/// `retry` is neutral for `or`, on either side. The other alternative starts from the same
/// transaction, and does not forget what that has read.
pub proof fn retry_is_neutral<T>(pre: TransactionView, other: Outcome<T>)
    requires
        forall|id: ID| pre.reads_from(id) ==> #[trigger] other.tx.reads_from(id),
    ensures
        same_to_runner(either(gives_up::<T>(pre), other), other),
        same_to_runner(either(other, gives_up::<T>(pre)), other),
{
    assert forall|id: ID| pre.reads_from(id) || other.tx.reads_from(id) implies other.tx.reads_from(
        id,
    ) by {}
}

/// `or` is associative: it makes no difference how three alternatives are put together.
pub proof fn or_is_associative<T>(f: Outcome<T>, g: Outcome<T>, h: Outcome<T>)
    ensures
        either(either(f, g), h) == either(f, either(g, h)),
{
    assert(h.tx.absorbs(g.tx.absorbs(f.tx)).log =~= h.tx.absorbs(g.tx).absorbs(f.tx).log);
}

/// An update is a modification that returns nothing.
pub proof fn update_is_a_modify<T: Clone + 'static, F: FnOnce(T) -> T, G: FnOnce(T) -> (T, ())>(
    pre: TransactionView,
    tvar: TVar<T>,
    f: F,
    g: G,
    post: TransactionView,
    r: Stm<()>,
)
    requires
        forall|c: T, w: T| #[trigger] f.ensures((c,), w) ==> g.ensures((c,), (w, ())),
        forall|c: T, out: (T, ())| #[trigger] g.ensures((c,), out) ==> f.ensures((c,), out.0),
    ensures
        pre.updates(tvar, f, post, r) <==> pre.modifies(tvar, g, post, r),
{
    if pre.updates(tvar, f, post, r) && r is Ok {
        let (mid, x, c, w) = choose|mid: TransactionView, x: T, c: T, w: T|
            {
                &&& #[trigger] pre.reads(tvar, mid, Ok(Arc::new(x)))
                &&& cloned(x, c)
                &&& #[trigger] f.ensures((c,), w)
                &&& mid.writes(tvar, w, post)
            };
        let out = (w, ());
        assert(g.ensures((c,), out));
        assert(mid.writes(tvar, out.0, post));
    }
    if pre.modifies(tvar, g, post, r) && r is Ok {
        let (mid, x, c, out) = choose|mid: TransactionView, x: T, c: T, out: (T, ())|
            {
                &&& #[trigger] pre.reads(tvar, mid, Ok(Arc::new(x)))
                &&& cloned(x, c)
                &&& #[trigger] g.ensures((c,), out)
                &&& mid.writes(tvar, out.0, post)
                &&& r->Ok_0 == out.1
            };
        assert(f.ensures((c,), out.0));
    }
}

/// A replacement is a modification that returns what it was given, where a clone is the value again.
pub proof fn replace_is_a_modify<T: Clone + 'static, G: FnOnce(T) -> (T, T)>(
    pre: TransactionView,
    tvar: TVar<T>,
    value: T,
    g: G,
    post: TransactionView,
    r: Stm<T>,
)
    requires
        forall|a: T, b: T| cloned(a, b) ==> a == b,
        forall|c: T, out: (T, T)| #[trigger] g.ensures((c,), out) <==> out == (value, c),
    ensures
        pre.modifies(tvar, g, post, r) <==> pre.replaces(
            tvar,
            value,
            post,
            match r {
                Ok(x) => Ok(Arc::new(x)),
                Err(e) => Err(e),
            },
        ),
{
    if r is Ok {
        let x = r->Ok_0;
        if pre.modifies(tvar, g, post, r) {
            let (mid, y, c, out) = choose|mid: TransactionView, y: T, c: T, out: (T, T)|
                {
                    &&& #[trigger] pre.reads(tvar, mid, Ok(Arc::new(y)))
                    &&& cloned(y, c)
                    &&& #[trigger] g.ensures((c,), out)
                    &&& mid.writes(tvar, out.0, post)
                    &&& x == out.1
                };
            assert(pre.reads(tvar, mid, Ok(Arc::new(x))));
            assert(mid.writes(tvar, value, post));
        }
        if pre.replaces(tvar, value, post, Ok(Arc::new(x))) {
            let mid = choose|mid: TransactionView| #[trigger]
                pre.reads(tvar, mid, Ok(Arc::new(x))) && mid.writes(tvar, value, post);
            let out = (value, x);
            assert(cloned(x, x));
            assert(g.ensures((x,), out));
            assert(mid.writes(tvar, out.0, post));
        }
    }
}

/// Locks are taken in one order, so that no two transactions wait for each other: where one of them
/// takes the lock of a variable before that of another variable, every other transaction that needs
/// both does so too. The locks and the wait queues that a transaction holds are always taken by
/// increasing ID.
pub proof fn locks_are_taken_in_one_order(
    ids: Seq<ID>,
    other_ids: Seq<ID>,
    i: int,
    j: int,
    k: int,
    l: int,
)
    requires
        increasing(ids),
        increasing(other_ids),
        0 <= i < j < ids.len(),
        0 <= k < other_ids.len(),
        0 <= l < other_ids.len(),
        ids[i] == other_ids[k],
        ids[j] == other_ids[l],
    ensures
        k < l,
{
}

/// A transaction that only reads is never in conflict: without an auxiliary transaction its commit
/// succeeds, under the version that it started from.
pub proof fn read_only_commit_succeeds<N: FnOnce() -> Version>(
    tx: TransactionView,
    next_version: N,
    r: Option<Version>,
)
    requires
        !tx.has_writes,
        tx.commits(NoAux, next_version, r),
    ensures
        r == Some(tx.version),
{
}

/// The auxiliary transaction takes part in every commit: a commit that succeeds has committed it,
/// and one that does not has rolled it back or heard from it that it cannot be committed.
pub proof fn auxiliary_shares_the_outcome<X: Aux, N: FnOnce() -> Version>(
    tx: TransactionView,
    atx: X,
    next_version: N,
    r: Option<Version>,
)
    requires
        tx.commits(atx, next_version, r),
    ensures
        r is Some ==> call_ensures(X::commit, (atx,), true),
        r is None ==> call_ensures(X::rollback, (atx,), ()) || call_ensures(
            X::commit,
            (atx,),
            false,
        ),
{
}

/// Every attempt deals with its auxiliary transaction. One that is finished has committed it; one
/// that could not be finished has rolled it back, or could not commit it; and one that is given up
/// has rolled it back.
pub proof fn every_attempt_settles_its_auxiliary<E, X: Aux, N: FnOnce() -> Version>(
    tx: TransactionView,
    atx: X,
    next_version: N,
    err: StmError<E>,
    r: Next<E>,
)
    ensures
        finishes(tx, atx, next_version, true) ==> call_ensures(X::commit, (atx,), true),
        finishes(tx, atx, next_version, false) ==> call_ensures(X::rollback, (atx,), ())
            || call_ensures(X::commit, (atx,), false),
        gives_way(tx, atx, err, r) ==> call_ensures(X::rollback, (atx,), ()),
{
}

/// An operation that cannot abort never ends in an error.
pub proof fn control_never_ends_in_an_error<T, E, X: Aux>(
    tx: TransactionView,
    atx: X,
    result: Stm<T>,
    r: Next<E>,
)
    requires
        as_control::<T, E>(result) matches Err(err) && gives_way(tx, atx, err, r),
    ensures
        !(r is Abort),
{
}

/// A commit is decided by what it has seen. It succeeds exactly if every variable of the log has
/// been found not to have been written since it was logged, and the auxiliary transaction has been
/// committed. If one has been written since, the auxiliary transaction is rolled back.
pub proof fn commit_is_decided_by_what_it_sees<X: Aux, N: FnOnce() -> Version>(
    tx: TransactionView,
    seen: Map<ID, nat>,
    atx: X,
    next_version: N,
    r: Option<Version>,
)
    requires
        tx.has_writes,
        tx.commits_seeing(seen, atx, next_version, r),
    ensures
        r is Some ==> all_current(tx.log, seen) && call_ensures(X::commit, (atx,), true),
        r is None && all_current(tx.log, seen) ==> call_ensures(X::commit, (atx,), false),
        !all_current(tx.log, seen) ==> r is None && some_outdated(tx.log, seen) && call_ensures(
            X::rollback,
            (atx,),
            (),
        ),
{
}

/// A commit that nobody else gets in the way of, where `before` gives for each variable the number
/// of stores made in it before the call: it succeeds exactly if nothing that the store has is newer
/// than the log, and the auxiliary transaction has been committed. If something is newer, the
/// auxiliary transaction is rolled back.
pub proof fn commit_succeeds_where_nothing_is_newer<X: Aux, N: FnOnce() -> Version>(
    tx: TransactionView,
    before: Map<ID, nat>,
    seen: Map<ID, nat>,
    atx: X,
    next_version: N,
    r: Option<Version>,
)
    requires
        tx.has_writes,
        tx.commits_seeing(seen, atx, next_version, r),
        forall|id: ID| #[trigger] seen.contains_key(id) ==> seen[id] == before[id],
    ensures
        if forall|id: ID| #[trigger]
            tx.log.contains_key(id) ==> stamps(tx.log[id].svar().vvar)[before[id]]
                <= tx.log[id].vvar().version {
            call_ensures(X::commit, (atx,), r is Some)
        } else {
            r is None && call_ensures(X::rollback, (atx,), ())
        },
{
}

/// What a commit makes of a store that nobody else touches meanwhile, and what it returns. `store`
/// is what the variables hold, `agrees` whether the auxiliary transaction can be committed, and
/// `version` the next version of the clock.
pub open spec fn commit_on(
    tx: TransactionView,
    store: Map<ID, VVar>,
    agrees: bool,
    version: Version,
) -> (Map<ID, VVar>, Option<Version>) {
    if !tx.has_writes {
        (store, if agrees { Some(tx.version) } else { None })
    } else if is_newer(store, tx.log) || !agrees {
        (store, None)
    } else {
        (
            Map::new(
                |id: ID| store.contains_key(id),
                |id: ID|
                    if tx.writes_to(id) {
                        VVar { version, value: tx.log[id].vvar().value }
                    } else {
                        store[id]
                    },
            ),
            Some(version),
        )
    }
}

/// Something in a store is newer than what is logged of it.
pub open spec fn is_newer(store: Map<ID, VVar>, log: Map<ID, LVar>) -> bool {
    exists|id: ID| #[trigger]
        log.contains_key(id) && store[id].version > log[id].vvar().version
}

/// The variables of a log hold what is in a store, each after the given number of stores.
pub open spec fn holds_store(
    log: Map<ID, LVar>,
    turns: Map<ID, nat>,
    store: Map<ID, VVar>,
) -> bool {
    forall|id: ID| #[trigger]
        log.contains_key(id) ==> {
            &&& turns.contains_key(id)
            &&& store.contains_key(id)
            &&& held_at(log[id].svar().vvar, turns[id], store[id])
        }
}

/// A commit acts on the store as a whole. Where nobody else gets in its way, so that it sees the
/// variables as they were before, it returns what [`commit_on`] says; and every lock that it took
/// has been given back with what that says: as it was, if the commit failed or only read the
/// variable, and otherwise after one more store.
pub proof fn undisturbed_commit_acts_on_the_store<X: Aux, N: FnOnce() -> Version>(
    tx: TransactionView,
    before: Map<ID, nat>,
    store: Map<ID, VVar>,
    seen: Map<ID, nat>,
    atx: X,
    agrees: bool,
    next_version: N,
    version: Version,
    r: Option<Version>,
)
    requires
        holds_store(tx.log, before, store),
        tx.commits_seeing(seen, atx, next_version, r),
        forall|id: ID| #[trigger] seen.contains_key(id) ==> seen[id] == before[id],
        forall|done: bool| #[trigger] call_ensures(X::commit, (atx,), done) ==> done == agrees,
        forall|v: Version| #[trigger] next_version.ensures((), v) ==> v == version,
    ensures
        r == commit_on(tx, store, agrees, version).1,
        holds_store(
            tx.log,
            before.map_entries(
                |id: ID, n: nat|
                    if tx.has_writes && r is Some && tx.writes_to(id) {
                        n + 1
                    } else {
                        n
                    },
            ),
            commit_on(tx, store, agrees, version).0,
        ),
        tx.has_writes ==> forall|id: ID| #[trigger]
            seen.contains_key(id) ==> given_back(
                tx.log[id].svar().vvar,
                if r is Some && tx.writes_to(id) {
                    before[id] + 1
                } else {
                    before[id]
                },
            ),
{
    let after = before.map_entries(
        |id: ID, n: nat|
            if tx.has_writes && r is Some && tx.writes_to(id) {
                n + 1
            } else {
                n
            },
    );
    let new_store = commit_on(tx, store, agrees, version).0;
    if tx.has_writes {
        assert(is_newer(store, tx.log) <==> !all_current(tx.log, seen)) by {
            if !all_current(tx.log, seen) {
                let id = choose|id: ID| #[trigger]
                    seen.contains_key(id) && !current(tx.log[id], seen[id]);
                assert(tx.log.contains_key(id));
            }
        }
    }
    assert forall|id: ID| #[trigger] tx.log.contains_key(id) implies after.contains_key(id)
        && new_store.contains_key(id) && held_at(
        tx.log[id].svar().vvar,
        after[id],
        new_store[id],
    ) by {
        assert(before.contains_key(id));
        assert(held_at(tx.log[id].svar().vvar, before[id], store[id]));
    }
}

/// A commit that fails changes nothing: it gives back every lock that it took as it found it.
pub proof fn failed_commit_changes_nothing<X: Aux, N: FnOnce() -> Version>(
    tx: TransactionView,
    seen: Map<ID, nat>,
    atx: X,
    next_version: N,
    id: ID,
)
    requires
        tx.has_writes,
        tx.commits_seeing(seen, atx, next_version, None),
        seen.contains_key(id),
    ensures
        given_back(tx.log[id].svar().vvar, seen[id]),
{
}

/// A commit leaves alone what it has only read: it gives back the lock of such a variable as it
/// found it.
pub proof fn commit_leaves_alone_what_was_read<X: Aux, N: FnOnce() -> Version>(
    tx: TransactionView,
    seen: Map<ID, nat>,
    atx: X,
    next_version: N,
    r: Option<Version>,
    id: ID,
)
    requires
        tx.has_writes,
        tx.commits_seeing(seen, atx, next_version, r),
        seen.contains_key(id),
        !tx.writes_to(id),
    ensures
        given_back(tx.log[id].svar().vvar, seen[id]),
{
}

/// In a store that nobody else touches, a commit that succeeds leaves what it has written under its
/// version, and everything else as it was.
pub proof fn commit_leaves_what_was_written(
    tx: TransactionView,
    store: Map<ID, VVar>,
    version: Version,
    id: ID,
)
    requires
        tx.has_writes,
        !is_newer(store, tx.log),
        store.contains_key(id),
    ensures
        commit_on(tx, store, true, version).1 == Some(version),
        commit_on(tx, store, true, version).0[id] == if tx.writes_to(id) {
            VVar { version, value: tx.log[id].vvar().value }
        } else {
            store[id]
        },
{
}

/// One after the other, the first committer wins: a transaction with a variable in its log that
/// another one has committed in the meantime, under a version above the logged one, is not
/// committed.
pub proof fn second_committer_is_refused(
    first: TransactionView,
    second: TransactionView,
    store: Map<ID, VVar>,
    version: Version,
    agrees: bool,
    next: Version,
    id: ID,
)
    requires
        first.has_writes,
        first.writes_to(id),
        store.contains_key(id),
        commit_on(first, store, true, version).1 is Some,
        second.has_writes,
        second.log.contains_key(id),
        second.log[id].vvar().version < version,
    ensures
        commit_on(second, commit_on(first, store, true, version).0, agrees, next) == (
            commit_on(first, store, true, version).0,
            None::<Version>,
        ),
{
    let then = commit_on(first, store, true, version).0;
    assert(then[id].version == version);
    assert(is_newer(then, second.log));
}

/// A commit stores under one version, which comes after the start of the transaction and after
/// everything that it has read or replaced; and that is what each of the variables holds when its
/// lock is given back.
pub proof fn commit_raises_versions<X: Aux, N: FnOnce() -> Version>(
    tx: TransactionView,
    seen: Map<ID, nat>,
    atx: X,
    next_version: N,
    version: Version,
    id: ID,
)
    requires
        tx.has_writes,
        tx.commits_seeing(seen, atx, next_version, Some(version)),
        tx.writes_to(id),
    ensures
        version > tx.version,
        stamps(tx.log[id].svar().vvar)[seen[id]] < version,
        stamps(tx.log[id].svar().vvar)[seen[id] + 1] == version,
        held_at(
            tx.log[id].svar().vvar,
            seen[id] + 1,
            VVar { version, value: tx.log[id].vvar().value },
        ),
        given_back(tx.log[id].svar().vvar, seen[id] + 1),
{
    assert(tx.log.contains_key(id));
}

/// A stale read is refused: a transaction that has read a variable, and finds at its commit that
/// something has been stored in it since, is not committed.
pub proof fn stale_read_is_refused<T, X: Aux, N: FnOnce() -> Version>(
    pre: TransactionView,
    tvar: TVar<T>,
    n: nat,
    v: VVar,
    x: Arc<T>,
    post: TransactionView,
    tx: TransactionView,
    seen: Map<ID, nat>,
    atx: X,
    next_version: N,
    r: Option<Version>,
)
    requires
        held_at(tvar.svar().vvar, n, v),
        pre.observes(tvar, v, post, Ok(x)),
        tx.log.contains_key(tvar.id()),
        tx.log[tvar.id()].svar() == tvar.svar(),
        tx.log[tvar.id()].vvar().version == post.log[tvar.id()].vvar().version,
        tx.has_writes,
        tx.commits_seeing(seen, atx, next_version, r),
        seen.contains_key(tvar.id()) ==> seen[tvar.id()] > n,
    ensures
        r is None,
{
    if r is Some {
        assert(seen.contains_key(tvar.id()));
        assert(stamps(tvar.svar().vvar)[n] < stamps(tvar.svar().vvar)[seen[tvar.id()]]);
    }
}

/// A variable that is written without having been read is in conflict with every commit that came
/// after the start of the transaction: if one is found, the transaction is not committed.
pub proof fn blind_write_meets_later_commit<T: 'static, X: Aux, N: FnOnce() -> Version>(
    pre: TransactionView,
    tvar: TVar<T>,
    value: T,
    post: TransactionView,
    tx: TransactionView,
    seen: Map<ID, nat>,
    atx: X,
    next_version: N,
    r: Option<Version>,
)
    requires
        !pre.log.contains_key(tvar.id()),
        pre.writes(tvar, value, post),
        tx.log.contains_key(tvar.id()),
        tx.log[tvar.id()].svar() == tvar.svar(),
        tx.log[tvar.id()].vvar().version == post.log[tvar.id()].vvar().version,
        tx.has_writes,
        tx.commits_seeing(seen, atx, next_version, r),
        seen.contains_key(tvar.id()) ==> stamps(tvar.svar().vvar)[seen[tvar.id()]] > pre.version,
    ensures
        r is None,
{
}

/// The first committer wins. Take two transactions that have both accessed a variable, and both
/// started before the first of them was committed with a write to it: if the second one comes to
/// the variable after that, it is not committed.
pub proof fn first_committer_wins<X: Aux, M: FnOnce() -> Version, Y: Aux, N: FnOnce() -> Version>(
    first: TransactionView,
    first_seen: Map<ID, nat>,
    first_atx: X,
    first_clock: M,
    version: Version,
    second: TransactionView,
    second_seen: Map<ID, nat>,
    second_atx: Y,
    second_clock: N,
    r: Option<Version>,
    id: ID,
)
    requires
        first.has_writes,
        first.commits_seeing(first_seen, first_atx, first_clock, Some(version)),
        first.writes_to(id),
        within_start(second),
        second.version < version,
        second.has_writes,
        second.log.contains_key(id),
        second.log[id].svar() == first.log[id].svar(),
        second.commits_seeing(second_seen, second_atx, second_clock, r),
        second_seen.contains_key(id) ==> second_seen[id] > first_seen[id],
    ensures
        r is None,
{
    if r is Some {
        let lock = first.log[id].svar().vvar;
        assert(first.log.contains_key(id));
        assert(second_seen.contains_key(id));
        if second_seen[id] > first_seen[id] + 1 {
            assert(stamps(lock)[first_seen[id] + 1] < stamps(lock)[second_seen[id]]);
        }
        assert(second.log[id].vvar().version <= second.version);
    }
}

/// No update is lost. Of two transactions that have both written a variable, and both started
/// before either was committed, only one is committed. Commits never share a version.
pub proof fn no_update_is_lost<X: Aux, M: FnOnce() -> Version, Y: Aux, N: FnOnce() -> Version>(
    one: TransactionView,
    one_seen: Map<ID, nat>,
    one_atx: X,
    one_clock: M,
    one_version: Version,
    other: TransactionView,
    other_seen: Map<ID, nat>,
    other_atx: Y,
    other_clock: N,
    r: Option<Version>,
    id: ID,
)
    requires
        within_start(one),
        within_start(other),
        one.has_writes,
        other.has_writes,
        one.writes_to(id),
        other.writes_to(id),
        one.log[id].svar() == other.log[id].svar(),
        one.commits_seeing(one_seen, one_atx, one_clock, Some(one_version)),
        other.commits_seeing(other_seen, other_atx, other_clock, r),
        other.version < one_version,
        r matches Some(other_version) ==> one.version < other_version && one_version
            != other_version,
    ensures
        r is None,
{
    if r is Some {
        assert(one.log.contains_key(id));
        assert(other.log.contains_key(id));
        if other_seen[id] > one_seen[id] {
            first_committer_wins(
                one,
                one_seen,
                one_atx,
                one_clock,
                one_version,
                other,
                other_seen,
                other_atx,
                other_clock,
                r,
                id,
            );
        } else if one_seen[id] > other_seen[id] {
            first_committer_wins(
                other,
                other_seen,
                other_atx,
                other_clock,
                r->Some_0,
                one,
                one_seen,
                one_atx,
                one_clock,
                Some(one_version),
                id,
            );
        }
    }
}

/// A variable of a log was read when `n` stores had been made in it.
pub open spec fn was_read_at(tx: TransactionView, id: ID, n: nat) -> bool {
    &&& stamps(tx.log[id].svar().vvar).contains_key(n)
    &&& stamps(tx.log[id].svar().vvar)[n] == tx.log[id].vvar().version
}

/// What a transaction has read is still there when it is committed: nothing has been stored since
/// in any variable that it has read, so all of its reads might have been made at that moment, at
/// once. No variable is looked at before it was read.
pub proof fn validated_reads_are_current<X: Aux, N: FnOnce() -> Version>(
    tx: TransactionView,
    read_at: Map<ID, nat>,
    seen: Map<ID, nat>,
    atx: X,
    next_version: N,
    version: Version,
)
    requires
        tx.has_writes,
        tx.commits_seeing(seen, atx, next_version, Some(version)),
        forall|id: ID| #[trigger]
            tx.reads_from(id) ==> was_read_at(tx, id, read_at[id]) && read_at[id] <= seen[id],
    ensures
        forall|id: ID| #[trigger] tx.reads_from(id) ==> read_at[id] == seen[id],
{
    assert forall|id: ID| #[trigger] tx.reads_from(id) implies read_at[id] == seen[id] by {
        let versions = stamps(tx.log[id].svar().vvar);
        assert(tx.log.contains_key(id));
        if read_at[id] < seen[id] {
            assert(versions[read_at[id]] < versions[seen[id]]);
        }
    }
}

/// The value that was there after `n` stores is the last one up to a version.
pub open spec fn is_as_of(lock: RwLock<VVar>, version: Version, n: nat) -> bool {
    &&& stamps(lock).contains_key(n)
    &&& stamps(lock)[n] <= version
    &&& forall|m: nat|
        m > n && #[trigger] stamps(lock).contains_key(m) ==> stamps(lock)[m] > version
}

/// A transaction comes before every commit that moves the clock after it has started.
pub proof fn later_commits_have_later_versions(
    tx: TransactionView,
    start: Clock,
    later: Clock,
    version: Version,
)
    requires
        within_start(tx),
        tx.version == start.now,
        start.now <= later.now,
        version == later.now + 1,
    ensures
        tx.precedes(version),
{
    assert forall|id: ID| #[trigger]
        tx.log.contains_key(id) implies tx.log[id].vvar().version < version by {
        assert(tx.log[id].vvar().version <= tx.version);
    }
}

/// Reads are of one snapshot. A read that does not fail gives the value that the variable had as
/// of the start of the transaction, where whatever is stored after the read has a later version
/// than that start. There is only one such value.
pub proof fn reads_are_of_one_snapshot<T>(
    pre: TransactionView,
    tvar: TVar<T>,
    n: nat,
    v: VVar,
    x: Arc<T>,
    post: TransactionView,
    m: nat,
)
    requires
        held_at(tvar.svar().vvar, n, v),
        pre.observes(tvar, v, post, Ok(x)),
        forall|later: nat|
            later > n && #[trigger] stamps(tvar.svar().vvar).contains_key(later) ==> stamps(
                tvar.svar().vvar,
            )[later] > pre.version,
    ensures
        is_as_of(tvar.svar().vvar, pre.version, n),
        post.log[tvar.id()].vvar() == v,
        is_as_of(tvar.svar().vvar, pre.version, m) ==> m == n,
{
}

/// A commit is seen whole or not at all. Take two variables that a commit has written, and what
/// they hold as of the start of some transaction: either both of these come from the commit or
/// after it, or neither does.
pub proof fn commit_is_seen_whole<X: Aux, N: FnOnce() -> Version>(
    tx: TransactionView,
    seen: Map<ID, nat>,
    atx: X,
    next_version: N,
    version: Version,
    one: ID,
    other: ID,
    start: Version,
    read_one: nat,
    read_other: nat,
)
    requires
        tx.has_writes,
        tx.commits_seeing(seen, atx, next_version, Some(version)),
        tx.writes_to(one),
        tx.writes_to(other),
        is_as_of(tx.log[one].svar().vvar, start, read_one),
        is_as_of(tx.log[other].svar().vvar, start, read_other),
    ensures
        read_one > seen[one] <==> version <= start,
        read_other > seen[other] <==> version <= start,
        read_one > seen[one] <==> read_other > seen[other],
{
    assert(tx.log.contains_key(one) && tx.log.contains_key(other));
    lemma_seen_from_its_version(tx.log[one].svar().vvar, seen[one], version, start, read_one);
    lemma_seen_from_its_version(tx.log[other].svar().vvar, seen[other], version, start, read_other);
}

proof fn lemma_seen_from_its_version(
    lock: RwLock<VVar>,
    n: nat,
    version: Version,
    start: Version,
    read: nat,
)
    requires
        rises(stamps(lock)),
        stamps(lock).contains_key(n + 1),
        stamps(lock)[n + 1] == version,
        is_as_of(lock, start, read),
    ensures
        read > n <==> version <= start,
{
    if read > n + 1 {
        assert(stamps(lock)[n + 1] < stamps(lock)[read]);
    }
}

/// A version names one store of a variable: what is found under the version of a commit is found
/// right after the store of that commit, before any other.
pub proof fn version_names_one_store<X: Aux, N: FnOnce() -> Version>(
    tx: TransactionView,
    seen: Map<ID, nat>,
    atx: X,
    next_version: N,
    version: Version,
    id: ID,
    n: nat,
    v: VVar,
)
    requires
        tx.has_writes,
        tx.commits_seeing(seen, atx, next_version, Some(version)),
        tx.writes_to(id),
        held_at(tx.log[id].svar().vvar, n, v),
    ensures
        v.version == version <==> n == seen[id] + 1,
{
    let versions = stamps(tx.log[id].svar().vvar);
    assert(tx.log.contains_key(id));
    assert(versions.contains_key(seen[id] + 1));
    if n < seen[id] + 1 {
        assert(versions[n] < versions[seen[id] + 1]);
    } else if n > seen[id] + 1 {
        assert(versions[seen[id] + 1] < versions[n]);
    }
}

/// What a commit leaves in a variable of its log.
pub open spec fn left_by(tx: TransactionView, version: Version, id: ID) -> VVar {
    if tx.writes_to(id) {
        VVar { version, value: tx.log[id].vvar().value }
    } else {
        tx.log[id].vvar()
    }
}

/// A committed write is read back. The lock of the variable is given back with it; and a read that
/// finds it there gives the value that was written, if that is plain data, exactly if its
/// transaction did not start before the commit.
pub proof fn committed_write_is_read_back<T: 'static, X: Aux, N: FnOnce() -> Version>(
    tvar: TVar<T>,
    pre: TransactionView,
    value: T,
    tx: TransactionView,
    seen: Map<ID, nat>,
    atx: X,
    next_version: N,
    version: Version,
    reader: TransactionView,
    post: TransactionView,
    r: Stm<Arc<T>>,
)
    requires
        pre.writes(tvar, value, tx),
        tx.commits_seeing(seen, atx, next_version, Some(version)),
        reader.observes(tvar, left_by(tx, version, tvar.id()), post, r),
    ensures
        held_at(tvar.svar().vvar, seen[tvar.id()] + 1, left_by(tx, version, tvar.id())),
        given_back(tvar.svar().vvar, seen[tvar.id()] + 1),
        r is Ok <==> version <= reader.version,
        r matches Ok(x) ==> tx.log[tvar.id()].vvar().value.holds(*x),
        r matches Ok(x) ==> is_data::<T>() ==> *x == value,
{
    assert(tx.log.contains_key(tvar.id()));
}

/// The next transaction goes on from what a commit has left: a read that finds it gives what the
/// committed transaction had in its log, written or read.
pub proof fn next_transaction_reads_what_was_left<T: 'static>(
    tvar: TVar<T>,
    tx: TransactionView,
    version: Version,
    reader: TransactionView,
    post: TransactionView,
    x: Arc<T>,
)
    requires
        tx.log.contains_key(tvar.id()),
        reader.observes(tvar, left_by(tx, version, tvar.id()), post, Ok(x)),
    ensures
        tx.reads(tvar, tx, Ok(x)),
{
}

/// A variable that is made in the middle of a transaction does not get in its way: a read that finds
/// its first value, under version 0, gives that value and does not fail; and a commit that finds
/// nothing else in it is not in conflict.
pub proof fn new_variable_does_not_get_in_the_way<T: 'static>(
    pre: TransactionView,
    tvar: TVar<T>,
    value: T,
    v: VVar,
    post: TransactionView,
    r: Stm<Arc<T>>,
)
    requires
        v.version == 0,
        v.value.is_exactly(value),
        pre.observes(tvar, v, post, r),
    ensures
        r is Ok,
        r matches Ok(x) ==> is_data::<T>() ==> *x == value,
        forall|n: nat|
            stamps(tvar.svar().vvar)[n] == 0 ==> #[trigger] current(post.log[tvar.id()], n),
{
}

/// A wait queue does not outgrow its record by more than the waiter that came last.
pub proof fn queue_stays_within_record(pre: WaitQueue, channel: int, post: WaitQueue)
    requires
        pre.adds(channel, post),
    ensures
        post.channels().len() <= post.record() + 1,
        post.channels().last() == channel,
{
    let pruned = choose|pruned: WaitQueue|
        {
            &&& #[trigger] pre.prunes(pruned)
            &&& post.last_written() == pruned.last_written()
            &&& post.channels() == pruned.channels().push(channel)
            &&& post.record() == pruned.record()
        };
}

/// A wait queue is bounded by the listeners that are still there, and the waiter that came last. If
/// no pruning ever finds more than `most` of them, neither the record nor the queue goes beyond
/// that: a variable that is read but never written does not collect waiters who no longer listen.
pub proof fn queue_is_bounded_by_listeners(
    most: nat,
    pre: WaitQueue,
    channel: int,
    version: Version,
    post: WaitQueue,
)
    requires
        pre.adds(channel, post) || pre.notifies(version, post),
        pre.record() <= most,
        forall|replies: Seq<bool>, pruned: WaitQueue| #[trigger]
            pre.pruned_by(replies, pruned) ==> accepting(pre.channels(), replies).len() <= most,
    ensures
        post.record() <= most,
        post.channels().len() <= most + 1,
{
    if !pre.notifies(version, post) {
        let pruned = choose|pruned: WaitQueue|
            {
                &&& #[trigger] pre.prunes(pruned)
                &&& post.last_written() == pruned.last_written()
                &&& post.channels() == pruned.channels().push(channel)
                &&& post.record() == pruned.record()
            };
    }
}

/// A waiter has not been forgotten: it waits, it has been signalled, or it did not listen any more.
spec fn remembered(queue: WaitQueue, channel: int) -> bool {
    ||| queue.channels().contains(channel)
    ||| was_offered(channel, true)
    ||| offered(channel, false, false)
}

/// Pruning keeps every channel whose reply was not a refusal.
pub(crate) proof fn lemma_accepting_keeps(channels: Seq<int>, replies: Seq<bool>, i: int)
    requires
        channels.len() == replies.len(),
        0 <= i < replies.len(),
        replies[i],
    ensures
        accepting(channels, replies).contains(channels[i]),
    decreases replies.len(),
{
    let rest = accepting(channels.drop_last(), replies.drop_last());
    if i == replies.len() - 1 {
        assert(rest.push(channels.last()).last() == channels[i]);
    } else {
        lemma_accepting_keeps(channels.drop_last(), replies.drop_last(), i);
        let k = choose|k: int| 0 <= k < rest.len() && rest[k] == channels[i];
        assert(rest.push(channels.last())[k] == channels[i]);
    }
}

proof fn lemma_change_remembers(queue: Mutex<WaitQueue>, n: nat, channel: int)
    requires
        remembered(queue_states(queue)[n], channel),
        queue_states(queue)[n].changes_to(queue_states(queue)[n + 1]),
    ensures
        remembered(queue_states(queue)[n + 1], channel),
{
    let pre = queue_states(queue)[n];
    let post = queue_states(queue)[n + 1];
    if pre.channels().contains(channel) {
        let i = choose|i: int| 0 <= i < pre.channels().len() && pre.channels()[i] == channel;
        if exists|v: Version| pre.notifies(v, post) {
            assert(was_offered(pre.channels()[i], true));
        } else {
            let c = choose|c: int| pre.adds(c, post);
            let pruned = choose|pruned: WaitQueue|
                {
                    &&& #[trigger] pre.prunes(pruned)
                    &&& post.last_written() == pruned.last_written()
                    &&& post.channels() == pruned.channels().push(c)
                    &&& post.record() == pruned.record()
                };
            if pre.channels().len() > pre.record() {
                let replies = choose|replies: Seq<bool>| pre.pruned_by(replies, pruned);
                assert(offered(pre.channels()[i], false, replies[i]));
                if replies[i] {
                    lemma_accepting_keeps(pre.channels(), replies, i);
                }
            }
            if pruned.channels().contains(channel) {
                let k = choose|k: int|
                    0 <= k < pruned.channels().len() && pruned.channels()[k] == channel;
                assert(post.channels()[k] == channel);
            }
        }
    }
}

proof fn lemma_remembered_until(queue: Mutex<WaitQueue>, from: nat, to: nat, channel: int)
    requires
        from <= to,
        well_kept(queue_states(queue)),
        queue_states(queue).contains_key(to),
        remembered(queue_states(queue)[from], channel),
    ensures
        remembered(queue_states(queue)[to], channel),
    decreases to - from,
{
    if from < to {
        let last = (to - 1) as nat;
        assert(queue_states(queue).contains_key(last));
        lemma_remembered_until(queue, from, last, channel);
        lemma_change_remembers(queue, last, channel);
    }
}

proof fn lemma_written_stays(queue: Mutex<WaitQueue>, from: nat, to: nat)
    requires
        from <= to,
        well_kept(queue_states(queue)),
        queue_states(queue).contains_key(to),
    ensures
        queue_states(queue)[to].last_written() >= queue_states(queue)[from].last_written(),
    decreases to - from,
{
    if from < to {
        let last = (to - 1) as nat;
        assert(queue_states(queue).contains_key(last));
        lemma_written_stays(queue, from, last);
        assert(queue_states(queue)[last].changes_to(queue_states(queue)[to]));
    }
}

/// No wake-up is lost. Take a transaction that has subscribed to a variable it had read, and a
/// commit above the start of that transaction which has signalled the queue of the variable, in
/// whatever order with other commits: then it did so after the transaction had subscribed, and the
/// transaction has been handed a true signal, unless it did not listen any more.
pub proof fn no_wake_up_is_lost(
    queue: Mutex<WaitQueue>,
    version: Version,
    channel: int,
    subscribed_at: nat,
    commit_version: Version,
    notified_at: nat,
)
    requires
        subscribed_after(queue, version, channel, subscribed_at),
        notified_after(queue, commit_version, notified_at),
        commit_version > version,
    ensures
        notified_at > subscribed_at,
        was_offered(channel, true) || offered(channel, false, false),
{
    let states = queue_states(queue);
    let before = states[subscribed_at];
    let after = states[subscribed_at + 1];
    let pruned = choose|pruned: WaitQueue|
        {
            &&& #[trigger] before.prunes(pruned)
            &&& after.last_written() == pruned.last_written()
            &&& after.channels() == pruned.channels().push(channel)
            &&& after.record() == pruned.record()
        };
    assert(after.channels().last() == channel);
    if notified_at < subscribed_at {
        lemma_written_stays(queue, notified_at + 1, subscribed_at);
    } else if notified_at > subscribed_at {
        lemma_remembered_until(queue, subscribed_at + 1, notified_at, channel);
        lemma_change_remembers(queue, notified_at, channel);
    }
}

/// A change that has been notified is not missed: a transaction that looks at a queue after some
/// commit above its start has signalled it does not wait, in whatever order the commits signalled
/// it.
pub proof fn notified_change_is_not_missed(
    tx: TransactionView,
    seen: Map<ID, nat>,
    r: WaitFor,
    id: ID,
    commit_version: Version,
    notified_at: nat,
)
    requires
        tx.waits_seeing(seen, r),
        tx.reads_from(id),
        notified_after(tx.log[id].svar().queue, commit_version, notified_at),
        commit_version > tx.version,
        notified_at < seen[id],
    ensures
        r is Nothing,
{
    lemma_written_stays(tx.log[id].svar().queue, notified_at + 1, seen[id]);
    assert(tx.is_signalled(seen));
}

/// A transaction does not wait for a change that it can see. If one of the variables that it has
/// read has been signalled since it started, it waits for nothing, and if none has, it waits for a
/// signal; unless it has read nothing.
pub proof fn wait_is_decided_by_what_is_seen(
    tx: TransactionView,
    seen: Map<ID, nat>,
    r: WaitFor,
    id: ID,
)
    requires
        tx.waits_seeing(seen, r),
        tx.reads_from(id),
    ensures
        r is Nothing <==> tx.is_signalled(seen),
        r is Signal <==> !tx.is_signalled(seen),
{
}

/// A commit wakes up every transaction that waits for one of its variables. If a transaction is
/// left to wait for a signal, and a commit above its start has written a variable that it had read
/// and has signalled its waiters, before or after, then the transaction has been handed a true
/// signal, unless it did not listen any more.
pub proof fn commit_wakes_waiting_transaction(
    waiting: TransactionView,
    listener: Listener,
    committing: TransactionView,
    commit_version: Version,
    id: ID,
)
    requires
        waiting.waits_for(WaitFor::Signal(listener)),
        waiting.reads_from(id),
        committing.has_writes,
        committing.wakes(commit_version),
        committing.writes_to(id),
        committing.log[id].svar() == waiting.log[id].svar(),
        commit_version > waiting.version,
    ensures
        was_offered(listens_to(listener), true) || offered(listens_to(listener), false, false),
{
    let queue = waiting.log[id].svar().queue;
    let channel = listens_to(listener);
    let seen = choose|seen: Map<ID, nat>|
        waiting.waits_seeing(seen, WaitFor::Signal(listener));
    let subscribed_at = seen[id];
    let notified_at = choose|n: nat| notified_after(queue, commit_version, n);
    no_wake_up_is_lost(
        queue,
        waiting.version,
        channel,
        subscribed_at,
        commit_version,
        notified_at,
    );
}

} // verus!
