//! The log of a transaction, and its life from the first read to the commit.

use crate::auxtx::Aux;
use crate::channel::{listens_to, signal_channel, Listener};
use crate::locks::{
    covers, given_back, held_at, increasing, load, lock_order, queue_order, queue_states, queue_taken, rises, stamps, taken, well_kept, EntryView, Locks,
    QueueView, Queues,
};
use crate::vars::{LVar, TVar, VVar, WaitQueue, ID};
use crate::version::{current_version, Clock, Version};
use crate::{Stm, StmControl};
use parking_lot::Mutex;
use std::collections::BTreeMap;
use std::sync::Arc;
use std::time::Duration;
use vstd::prelude::*;

verus! {

/// A duration of whole seconds.
pub uninterp spec fn seconds(secs: u64) -> Duration;

/// `Duration::from_secs`: the duration of that many whole seconds.
pub assume_specification[ Duration::from_secs ](secs: u64) -> (d: Duration)
    ensures
        d == seconds(secs),
;

/// Borrow the transaction that runs and pass it to a function. There has to be one.
pub fn with_tx<F, T>(running: &mut Option<Transaction>, f: F) -> (r: T) where
    F: FnOnce(&mut Transaction) -> T,

    requires
        *old(running) is Some,
        forall|tx: &mut Transaction| Some(*tx) == *old(running) ==> #[trigger] f.requires((tx,)),
    ensures
        exists|tx: &mut Transaction|
            {
                &&& #[trigger] f.ensures((tx,), r)
                &&& Some(*tx) == *old(running)
                &&& *final(running) == Some(*final(tx))
            },
{
    match running.as_mut() {
        None => vstd::pervasive::unreached(),
        Some(tx) => f(tx),
    }
}

/// A transaction that has not been committed yet.
pub struct Transaction {
    /// Version of the STM at the start of the transaction.
    /// When we commit, it's going to be done with the version
    /// at the end of the transaction, so that we can detect
    /// if another transaction committed a write-only value
    /// after we have started.
    version: Version,
    /// The local store of the transaction will only be accessed by a single thread,
    /// so it doesn't need to be wrapped in an `Arc`. We have exclusive access through
    /// the mutable reference to the transaction.
    ///
    /// BTreeMap is used to keep the keys sorted:
    /// It will prevent deadlocks when we try to obtain all the locks later.
    pub(crate) log: BTreeMap<ID, LVar>,
    /// A read-only transaction can be committed without taking out locks a second time.
    has_writes: bool,
    /// Time to wait during retries if no variables have been
    /// read by the transaction. This would be strange, but
    /// it's better than blocking a thread forever.
    pub empty_retry_wait_timeout: Duration,
}

/// What a [`Transaction`] is, as contracts see it.
#[verifier::ext_equal]
pub struct TransactionView {
    /// The version of the clock at the start.
    pub version: Version,
    /// The variables that have been read or written.
    pub log: Map<ID, LVar>,
    /// Something has been written.
    pub has_writes: bool,
    /// How long to wait if nothing has been read.
    pub empty_retry_wait_timeout: Duration,
}

impl View for Transaction {
    type V = TransactionView;

    closed spec fn view(&self) -> TransactionView {
        TransactionView {
            version: self.version,
            log: self.log@,
            has_writes: self.has_writes,
            empty_retry_wait_timeout: self.empty_retry_wait_timeout,
        }
    }
}

impl TransactionView {
    /// A transaction that starts at a version of the clock. It waits a minute if it has to be
    /// retried and has read nothing.
    pub open spec fn starts(version: Version) -> TransactionView {
        TransactionView {
            version,
            log: Map::empty(),
            has_writes: false,
            empty_retry_wait_timeout: seconds(60),
        }
    }

    /// A variable has been read from the committed store, so that a retry waits for it to change.
    pub open spec fn reads_from(self, id: ID) -> bool {
        self.log.contains_key(id) && self.log[id].read()
    }

    /// A variable has been written, so that a commit stores it.
    pub open spec fn writes_to(self, id: ID) -> bool {
        self.log.contains_key(id) && self.log[id].write()
    }

    /// A variable has been written, or it has been read.
    pub open spec fn selects(self, written: bool, id: ID) -> bool {
        if written {
            self.writes_to(id)
        } else {
            self.reads_from(id)
        }
    }

    /// The transaction with the variables of another one added: a variable that both know is
    /// taken from the other, unless this one has read it.
    pub open spec fn absorbs(self, first: TransactionView) -> TransactionView {
        TransactionView {
            log: Map::new(
                |id: ID| self.log.contains_key(id) || first.log.contains_key(id),
                |id: ID|
                    if self.reads_from(id) || !first.log.contains_key(id) {
                        self.log[id]
                    } else {
                        first.log[id]
                    },
            ),
            ..self
        }
    }

    /// A version comes after the start of the transaction and after everything in its log.
    pub open spec fn precedes(self, version: Version) -> bool {
        &&& self.version < version
        &&& forall|id: ID| #[trigger]
            self.log.contains_key(id) ==> self.log[id].vvar().version < version
    }

    /// What a commit does with its auxiliary transaction and the clock, and what it returns, where
    /// `seen` gives for each variable whose lock it took the number of stores made in it by then.
    ///
    /// Without writes the auxiliary transaction decides. With writes, the locks are taken by
    /// increasing ID, up to the first variable that has been written since it was logged. If there
    /// is one, the auxiliary transaction is rolled back; if there is none, the auxiliary
    /// transaction decides; and if it has been committed, everything that was written is stored
    /// under the version that the clock gives, as the next store in each of the locks. Every lock
    /// is given back: with that store if there was one, and otherwise as it was taken.
    pub open spec fn commits_seeing<X: Aux, N: FnOnce() -> Version>(
        self,
        seen: Map<ID, nat>,
        atx: X,
        next_version: N,
        r: Option<Version>,
    ) -> bool {
        if !self.has_writes {
            exists|done: bool|
                #[trigger] call_ensures(X::commit, (atx,), done) && r == if done {
                    Some(self.version)
                } else {
                    None
                }
        } else {
            &&& looks_at(self.log, seen)
            &&& all_given_back(self.log, seen, r is Some)
            &&& match r {
                Some(version) => {
                    &&& all_current(self.log, seen)
                    &&& call_ensures(X::commit, (atx,), true)
                    &&& next_version.ensures((), version)
                    &&& self.precedes(version)
                    &&& all_published(self.log, seen, version)
                },
                None => if all_current(self.log, seen) {
                    call_ensures(X::commit, (atx,), false)
                } else {
                    some_outdated(self.log, seen) && call_ensures(X::rollback, (atx,), ())
                },
            }
        }
    }

    /// What a commit does, whatever it has seen.
    pub open spec fn commits<X: Aux, N: FnOnce() -> Version>(
        self,
        atx: X,
        next_version: N,
        r: Option<Version>,
    ) -> bool {
        exists|seen: Map<ID, nat>| self.commits_seeing(seen, atx, next_version, r)
    }

    /// What a transaction does to those that wait, once it has been committed: it signals the
    /// queues of all variables that it has written.
    pub open spec fn wakes(self, commit_version: Version) -> bool {
        self.has_writes ==> forall|id: ID| #[trigger]
            self.writes_to(id) ==> notified(self.log[id].svar().queue, commit_version)
    }

    /// One of the queues of the variables that have been read has been signalled since the
    /// transaction started, where `seen` gives for each of them the number of changes made to it.
    pub open spec fn is_signalled(self, seen: Map<ID, nat>) -> bool {
        exists|id: ID| #[trigger]
            self.reads_from(id) && queue_states(self.log[id].svar().queue)[seen[id]].last_written()
                > self.version
    }

    /// What a transaction that has to be retried waits for, where `seen` gives for each variable
    /// that it has read the number of changes made to its queue when it was taken.
    ///
    /// It waits for some time if it has read nothing; for nothing, if one of the queues has been
    /// signalled since the transaction started; and otherwise for a signal, with one new waiter in
    /// each of the queues.
    pub open spec fn waits_seeing(self, seen: Map<ID, nat>, r: WaitFor) -> bool {
        &&& forall|id: ID| #[trigger]
            self.reads_from(id) ==> {
                &&& queue_taken(self.log[id].svar().queue, seen[id])
                &&& queue_states(self.log[id].svar().queue).contains_key(seen[id])
                &&& well_kept(queue_states(self.log[id].svar().queue))
            }
        &&& match r {
            WaitFor::Timeout(timeout) => {
                &&& timeout == self.empty_retry_wait_timeout
                &&& forall|id: ID| !self.reads_from(id)
            },
            WaitFor::Nothing => self.is_signalled(seen),
            WaitFor::Signal(listener) => {
                &&& exists|id: ID| self.reads_from(id)
                &&& !self.is_signalled(seen)
                &&& forall|id: ID| #[trigger]
                    self.reads_from(id) ==> subscribed_after(
                        self.log[id].svar().queue,
                        self.version,
                        listens_to(listener),
                        seen[id],
                    )
            },
        }
    }

    /// What a transaction that has to be retried waits for, whatever it has seen.
    pub open spec fn waits_for(self, r: WaitFor) -> bool {
        exists|seen: Map<ID, nat>| self.waits_seeing(seen, r)
    }

    /// The log means the same variable as `tvar` by the ID of `tvar`. No two variables share an
    /// ID, so this holds of every `tvar` that the transaction may meet.
    pub open spec fn coherent<T>(self, tvar: TVar<T>) -> bool {
        self.log.contains_key(tvar.id()) ==> self.log[tvar.id()].svar() == tvar.svar()
    }

    /// What a read does once it has seen `v` in the committed store: it fails if `v` was written
    /// after the transaction started, and otherwise logs `v` as read and returns its value.
    pub open spec fn observes<T>(
        self,
        tvar: TVar<T>,
        v: VVar,
        post: TransactionView,
        r: Stm<Arc<T>>,
    ) -> bool {
        if v.version > self.version {
            r == Err::<Arc<T>, StmControl>(StmControl::Failure) && post == self
        } else {
            let lvar = post.log[tvar.id()];
            &&& r matches Ok(x) && v.value.is_exactly(*x)
            &&& post == TransactionView { log: self.log.insert(tvar.id(), lvar), ..self }
            &&& lvar.svar() == tvar.svar()
            &&& lvar.vvar() == v
            &&& lvar.read()
            &&& !lvar.write()
        }
    }

    /// What a read does: it returns the logged value, or observes a committed one.
    pub open spec fn reads<T>(
        self,
        tvar: TVar<T>,
        post: TransactionView,
        r: Stm<Arc<T>>,
    ) -> bool {
        if self.log.contains_key(tvar.id()) {
            &&& r matches Ok(x) && self.log[tvar.id()].vvar().value.is_exactly(*x)
            &&& post == self
        } else {
            exists|n: nat, v: VVar|
                {
                    &&& taken(tvar.svar().vvar, n)
                    &&& #[trigger] held_at(tvar.svar().vvar, n, v)
                    &&& self.observes(tvar, v, post, r)
                }
        }
    }

    /// A read that gives a clone of what is read.
    pub open spec fn reads_clone<T: Clone + 'static>(
        self,
        tvar: TVar<T>,
        post: TransactionView,
        value: T,
    ) -> bool {
        exists|x: T| #[trigger] self.reads(tvar, post, Ok(Arc::new(x))) && cloned(x, value)
    }

    /// A read may give `x`.
    pub open spec fn may_read<T>(self, tvar: TVar<T>, x: T) -> bool {
        exists|post: TransactionView| #[trigger] self.reads(tvar, post, Ok(Arc::new(x)))
    }

    /// What a write does: it logs the value under the version of the first access, or that of the
    /// transaction where this is the first.
    pub open spec fn writes<T: 'static>(
        self,
        tvar: TVar<T>,
        value: T,
        post: TransactionView,
    ) -> bool {
        let id = tvar.id();
        let lvar = post.log[id];
        &&& post == TransactionView { log: self.log.insert(id, lvar), has_writes: true, ..self }
        &&& lvar.svar() == tvar.svar()
        &&& lvar.vvar().value.is_exactly(value)
        &&& lvar.vvar().version == if self.log.contains_key(id) {
            self.log[id].vvar().version
        } else {
            self.version
        }
        &&& lvar.read() == (self.log.contains_key(id) && self.log[id].read())
        &&& lvar.write()
    }

    /// What an update does: it reads, and writes what the function makes of a clone.
    pub open spec fn updates<T: Clone + 'static, F: FnOnce(T) -> T>(
        self,
        tvar: TVar<T>,
        f: F,
        post: TransactionView,
        r: Stm<()>,
    ) -> bool {
        match r {
            Ok(()) => exists|mid: TransactionView, x: T, c: T, w: T|
                {
                    &&& #[trigger] self.reads(tvar, mid, Ok(Arc::new(x)))
                    &&& cloned(x, c)
                    &&& #[trigger] f.ensures((c,), w)
                    &&& mid.writes(tvar, w, post)
                },
            Err(e) => self.reads(tvar, post, Err(e)),
        }
    }

    /// What a modification does: it reads, writes the first thing that the function makes of a
    /// clone, and returns the second.
    pub open spec fn modifies<T: Clone + 'static, R, F: FnOnce(T) -> (T, R)>(
        self,
        tvar: TVar<T>,
        f: F,
        post: TransactionView,
        r: Stm<R>,
    ) -> bool {
        match r {
            Ok(result) => exists|mid: TransactionView, x: T, c: T, out: (T, R)|
                {
                    &&& #[trigger] self.reads(tvar, mid, Ok(Arc::new(x)))
                    &&& cloned(x, c)
                    &&& #[trigger] f.ensures((c,), out)
                    &&& mid.writes(tvar, out.0, post)
                    &&& result == out.1
                },
            Err(e) => self.reads(tvar, post, Err(e)),
        }
    }

    /// What a replacement does: it reads, and writes another value.
    pub open spec fn replaces<T: 'static>(
        self,
        tvar: TVar<T>,
        value: T,
        post: TransactionView,
        r: Stm<Arc<T>>,
    ) -> bool {
        match r {
            Ok(x) => exists|mid: TransactionView| #[trigger]
                self.reads(tvar, mid, Ok(x)) && mid.writes(tvar, value, post),
            Err(e) => self.reads(tvar, post, Err(e)),
        }
    }
}

impl Transaction {
    /// A transaction that starts now.
    pub fn new(clock: &Clock) -> (tx: Transaction)
        ensures
            tx@ == TransactionView::starts(clock.now),
    {
        Transaction {
            version: current_version(clock),
            log: BTreeMap::new(),
            has_writes: false,
            empty_retry_wait_timeout: Duration::from_secs(60),
        }
    }

    /// Read a value from the local store, or the STM system.
    /// If it has changed since the beginning of the transaction,
    /// return a failure immediately, because we are not reading
    /// a consistent snapshot.
    pub fn read<T: Send + Sync + 'static>(&mut self, tvar: &TVar<T>) -> (r: Stm<Arc<T>>)
        requires
            old(self)@.coherent(*tvar),
        ensures
            old(self)@.reads(*tvar, final(self)@, r),
    {
        proof {
            use_type_invariant(tvar);
        }
        match self.log.get(&tvar.id) {
            Some(lvar) => {
                proof {
                    use_type_invariant(lvar);
                }
                Ok(lvar.vvar.downcast())
            },
            None => {
                let v = load(&tvar.svar.vvar);
                let r = self.observe(tvar, &v);
                proof {
                    let n = choose|n: nat|
                        taken(tvar.svar().vvar, n) && #[trigger] held_at(tvar.svar().vvar, n, v);
                    assert(held_at(tvar.svar().vvar, n, v));
                }
                r
            },
        }
    }

    /// Go on with a read of a variable that is not in the log, once its committed value is known.
    pub fn observe<T: Send + Sync + 'static>(&mut self, tvar: &TVar<T>, v: &VVar) -> (r: Stm<
        Arc<T>,
    >)
        requires
            !old(self)@.log.contains_key(tvar.id()),
            v.value.is_a::<T>(),
        ensures
            old(self)@.observes(*tvar, *v, final(self)@, r),
    {
        proof {
            use_type_invariant(tvar);
        }
        if v.version > self.version {
            // The TVar has been written to since we started this transaction.
            // There is no point carrying on with the rest of it, but we can retry.
            Err(StmControl::Failure)
        } else {
            let lvar = LVar { svar: tvar.svar.clone(), vvar: v.clone(), read: true, write: false };
            self.log.insert(tvar.id, lvar);
            Ok(v.downcast())
        }
    }

    /// Write a value into the local store. If it has not been read
    /// before, just insert it with the version at the start of the
    /// transaction.
    pub fn write<T: Send + Sync + 'static>(&mut self, tvar: &TVar<T>, value: T) -> (r: Stm<()>)
        ensures
            r == Ok::<(), StmControl>(()),
            old(self)@.writes(*tvar, value, final(self)@),
    {
        proof {
            use_type_invariant(tvar);
        }
        let lvar = match self.log.get(&tvar.id) {
            Some(lvar) => LVar {
                svar: tvar.svar.clone(),
                vvar: VVar::new(lvar.vvar.version, value),
                read: lvar.read,
                write: true,
            },
            None => LVar {
                svar: tvar.svar.clone(),
                // So we didn't bother reading the value before attempting to overwrite,
                // and therefore we don't know what version it had. Let's use the maximum
                // it could have had at the time of the transaction.
                vvar: VVar::new(self.version, value),
                read: false,
                write: true,
            },
        };
        self.log.insert(tvar.id, lvar);
        self.has_writes = true;
        Ok(())
    }

    /// Add the variables of an alternative that had to be retried, so that a retry of this
    /// transaction reacts to a change of any variable that either of them has read.
    pub(crate) fn absorb(&mut self, first: &Transaction)
        ensures
            final(self)@ == old(self)@.absorbs(first@),
    {
        let entries = first.entries();
        let mut i: usize = 0;
        while i < entries.len()
            invariant
                i <= entries@.len(),
                in_order(entries@, first@.log),
                self@ == (TransactionView { log: self@.log, ..old(self)@ }),
                forall|id: ID| #[trigger]
                    self@.log.contains_key(id) <==> old(self)@.log.contains_key(id) || exists|
                        j: int,
                    |
                        0 <= j < i && entries@[j].0 == id,
                forall|id: ID|
                    old(self)@.log.contains_key(id) && (old(self)@.log[id].read() || forall|
                        j: int,
                    |
                        0 <= j < i ==> entries@[j].0 != id) ==> #[trigger] self@.log[id]
                        == old(self)@.log[id],
                forall|j: int|
                    0 <= j < i && !old(self)@.reads_from((#[trigger] entries@[j]).0)
                        ==> self@.log[entries@[j].0] == *entries@[j].1,
            decreases entries@.len() - i,
        {
            let id = entries[i].0;
            let has_read = match self.log.get(&id) {
                Some(lvar) => lvar.read,
                None => false,
            };
            if !has_read {
                self.log.insert(id, entries[i].1.clone());
            }
            i = i + 1;
        }
        assert(self@.log =~= old(self)@.absorbs(first@).log);
    }

    /// The log in the order of the IDs. Locks are taken one by one in this order.
    pub fn entries(&self) -> (entries: Vec<(ID, &LVar)>)
        ensures
            in_order(entries@, self@.log),
    {
        broadcast use vstd::std_specs::btree::group_btree_axioms;

        let mut entries: Vec<(ID, &LVar)> = Vec::new();
        let iter = self.log.iter();
        let ghost all = vstd::std_specs::iter::IteratorSpec::remaining(&iter);
        proof {
            let keys = all.map_values(|kv: (&ID, &LVar)| *kv.0);
            assert(vstd::std_specs::btree::increasing_seq(keys));
            assert forall|i: int, j: int| 0 <= i < j < all.len() implies *all[i].0 < *all[j].0 by {
                assert(vstd::std_specs::cmp::OrdSpec::cmp_spec(&keys[i], &keys[j]) is Less);
            }
            assert forall|id: ID| #[trigger] self.log@.contains_key(id) implies exists|i: int|
                0 <= i < all.len() && *all[i].0 == id by {
                assert(all.contains((&id, &self.log@[id])));
            }
        }
        for (id, lvar) in it: iter
            invariant
                it.seq() == all,
                entries@.len() == it.index(),
                forall|i: int|
                    0 <= i < entries@.len() ==> entries@[i].0 == *all[i].0 && entries@[i].1
                        == all[i].1,
        {
            entries.push((*id, lvar));
        }
        assert forall|id: ID| #[trigger] self.log@.contains_key(id) implies exists|i: int|
            0 <= i < entries@.len() && entries@[i].0 == id by {
            let i = choose|i: int| 0 <= i < all.len() && *all[i].0 == id;
            assert(entries@[i].0 == id);
        }
        assert forall|i: int| 0 <= i < entries@.len() implies self.log@.contains_key(
            #[trigger] entries@[i].0,
        ) && self.log@[entries@[i].0] == *entries@[i].1 by {
            assert(self.log@.contains_key(*all[i].0));
        }
        assert forall|i: int, j: int| 0 <= i < j < entries@.len() implies entries@[i].0
            < entries@[j].0 by {
            assert(*all[i].0 < *all[j].0);
        }
        entries
    }

    /// Acquire write locks to all values written in the transaction, read locks for the rest,
    /// but do this in the deterministic order of IDs to avoid deadlocks. Stop at the first variable
    /// that has been written since it was logged. Return the locks and the versions that they hold.
    fn lock_log<'a>(entries: &Vec<(ID, &'a LVar)>) -> (r: (Locks<'a>, Vec<Version>))
        requires
            forall|i: int, j: int| 0 <= i < j < entries@.len() ==> entries@[i].0 < entries@[j].0,
        ensures
            increasing(lock_order(r.0@)),
            r.0@.len() == r.1@.len() <= entries@.len(),
            forall|i: int|
                0 <= i < r.0@.len() ==> is_lock_of(#[trigger] r.0@[i], entries@[i], r.1@[i]),
            forall|i: int| 0 <= i < r.0@.len() - 1 ==> (#[trigger] r.0@[i]).is_current(),
            r.0@.len() < entries@.len() ==> r.0@.len() > 0 && !r.0@.last().is_current(),
    {
        let mut locks = Locks::new();
        let mut observed: Vec<Version> = Vec::new();
        let mut i: usize = 0;
        while i < entries.len()
            invariant
                i <= entries@.len(),
                locks@.len() == i,
                observed@.len() == i,
                forall|i: int, j: int|
                    0 <= i < j < entries@.len() ==> entries@[i].0 < entries@[j].0,
                forall|j: int|
                    0 <= j < i ==> is_lock_of(#[trigger] locks@[j], entries@[j], observed@[j])
                        && locks@[j].is_current(),
            decreases entries@.len() - i,
        {
            let (id, lvar) = entries[i];
            let ghost before = locks@;
            let ghost before_observed = observed@;
            assert(before.len() > 0 ==> is_lock_of(
                before[i - 1],
                entries@[i - 1],
                before_observed[i - 1],
            ));
            let (more, version) = locks.take(id, lvar);
            locks = more;
            observed.push(version);
            assert(forall|j: int|
                0 <= j < i ==> locks@[j] == #[trigger] before[j] && observed@[j]
                    == before_observed[j]);
            if lvar.outdated_by(version) {
                proof {
                    use_type_invariant(&locks);
                }
                return (locks, observed);
            }
            i = i + 1;
        }
        proof {
            use_type_invariant(&locks);
        }
        (locks, observed)
    }

    /// In a critical section, check that every variable we have read/written
    /// hasn't got a higher version number in the committed store.
    /// If so, add all written values to the store.
    ///
    /// This is also the place where the auxiliary transaction can be committed,
    /// while the locks are being held, so there's no gap where the two datasets
    /// are inconsistent.
    ///
    /// `next_version` moves the clock forward. It is called while the locks are being held, if
    /// there is something to store; otherwise it is handed back.
    pub fn commit<X: Aux, N: FnOnce() -> Version>(&self, atx: X, next_version: N) -> (r: (
        Option<Version>,
        Option<N>,
    ))
        requires
            next_version.requires(()),
            forall|v: Version| #[trigger] next_version.ensures((), v) ==> self@.precedes(v),
        ensures
            self@.commits(atx, next_version, r.0),
            r.1 == if self@.has_writes && r.0 is Some {
                None
            } else {
                Some(next_version)
            },
    {
        // If there were no writes, then the read would have already detected conflicts when their
        // values were retrieved. We can go ahead and just return without locking again.
        if !self.has_writes {
            let done = atx.commit();
            let r = if done { Some(self.version) } else { None };
            assert(self@.commits_seeing(Map::empty(), atx, next_version, r));
            return (r, Some(next_version));
        }
        let entries = self.entries();
        let (locks, observed) = Self::lock_log(&entries);
        let ghost before = locks@;
        let ghost seen = turns(before);
        proof {
            lemma_looks_at(before, observed@, entries@, self@.log);
        }
        if !validates(&entries, &observed) {
            atx.rollback();
            locks.release();
            proof {
                lemma_given_back(before, before, entries@, observed@, self@.log, None);
                assert(self@.commits_seeing(seen, atx, next_version, None));
            }
            return (None, Some(next_version));
        }
        // See if the auxiliary transaction can be committed first, while we hold all the
        // in-memory locks.
        let ghost aux = atx;
        if !atx.commit() {
            locks.release();
            proof {
                lemma_given_back(before, before, entries@, observed@, self@.log, None);
                assert(self@.commits_seeing(seen, aux, next_version, None));
            }
            return (None, Some(next_version));
        }
        // Incrementing after locks are taken; if it only differs by one, no other transaction took
        // place; but we already checked for conflicts, it looks like at this point there's no way
        // to use this info.
        let (version, locks) = locks.publish::<X, N>(self, Ghost(aux), next_version);
        let ghost after = locks@;
        locks.release();
        proof {
            lemma_published(before, after, self@.log, version);
            lemma_given_back(before, after, entries@, observed@, self@.log, Some(version));
            assert(self@.commits_seeing(seen, aux, next_version, Some(version)));
        }
        (Some(version), None)
    }

    /// The queues of the variables that the transaction has written, or of those that it has
    /// read, locked in the order of the IDs.
    fn lock_queues(&self, written: bool) -> (queues: Queues<'_>)
        ensures
            queues_of(self@, written, queues@),
    {
        let mut queues = Queues::new();
        let entries = self.entries();
        let mut i: usize = 0;
        while i < entries.len()
            invariant
                i <= entries@.len(),
                in_order(entries@, self@.log),
                forall|k: int|
                    0 <= k < queues@.len() ==> {
                        &&& is_queue_of(self@, #[trigger] queues@[k])
                        &&& self@.selects(written, queues@[k].id)
                    },
                queues@.len() > 0 ==> i > 0 && queues@.last().id <= entries@[i - 1].0,
                forall|j: int|
                    0 <= j < i && self@.selects(written, (#[trigger] entries@[j]).0) ==> has_queue(
                        queues@,
                        entries@[j].0,
                    ),
            decreases entries@.len() - i,
        {
            let (id, lvar) = entries[i];
            let ghost before = queues@;
            let selected = if written { lvar.write } else { lvar.read };
            if selected {
                queues = queues.take(id, &lvar.svar);
                proof {
                    assert(self@.selects(written, id));
                    assert forall|other: ID| #[trigger] has_queue(before, other) implies has_queue(
                        queues@,
                        other,
                    ) by {
                        let k = choose|k: int| 0 <= k < before.len() && before[k].id == other;
                        assert(queues@[k].id == other);
                    }
                    assert(queues@[before.len() as int].id == id);
                    assert(has_queue(queues@, id));
                    assert(forall|k: int|
                        0 <= k < before.len() ==> queues@[k] == #[trigger] before[k]);
                }
            }
            i = i + 1;
        }
        assert forall|id: ID| #[trigger] self@.selects(written, id) implies has_queue(
            queues@,
            id,
        ) by {
            let j = choose|j: int| 0 <= j < entries@.len() && entries@[j].0 == id;
            assert(self@.selects(written, entries@[j].0));
        }
        proof {
            use_type_invariant(&queues);
        }
        queues
    }

    /// For each variable that the transaction has read, subscribe to future
    /// change notifications, and say what to wait for.
    pub fn subscribe(&self) -> (r: WaitFor)
        ensures
            self@.waits_for(r),
    {
        let queues = self.lock_queues(false);
        let ghost before = queues@;
        let ghost seen = changes(before);
        proof {
            lemma_changes(self@, false, before);
            assert forall|id: ID| #[trigger] self@.reads_from(id) implies queue_taken(
                self@.log[id].svar().queue,
                seen[id],
            ) && queue_states(self@.log[id].svar().queue).contains_key(seen[id]) && well_kept(
                queue_states(self@.log[id].svar().queue),
            ) by {
                assert(self@.selects(false, id));
            }
        }
        let last_written = queues.last_written();
        // If there are no variables subscribed to then just wait a bit.
        if last_written.is_empty() {
            assert forall|id: ID| !self@.reads_from(id) by {
                if self@.reads_from(id) {
                    assert(self@.selects(false, id));
                    assert(has_queue(before, id));
                }
            }
            let r = WaitFor::Timeout(self.empty_retry_wait_timeout);
            assert(self@.waits_seeing(seen, r));
            return r;
        }
        // Don't register if a producer already committed changes by the time we got here.
        if has_updates(&last_written, self.version) {
            proof {
                let i = choose|i: int|
                    0 <= i < last_written@.len() && last_written@[i] > self@.version;
                assert(is_queue_of(self@, before[i]));
                assert(self@.selects(false, before[i].id));
                assert(self@.reads_from(before[i].id));
                assert(self@.is_signalled(seen));
                assert(self@.waits_seeing(seen, WaitFor::Nothing));
            }
            return WaitFor::Nothing;
        }
        let (signaler, listener) = signal_channel();
        assert forall|i: int| 0 <= i < before.len() implies (
        #[trigger] before[i]).fits() && before[i].queue.last_written() <= self@.version
            && self@.log.contains_key(before[i].id) && self@.log[before[i].id].read()
            && self@.log[before[i].id].svar().queue == before[i].mutex by {
            assert(is_queue_of(self@, before[i]));
            assert(self@.selects(false, before[i].id));
            assert(last_written@[i] <= self@.version);
        }
        let queues = queues.add_all(&signaler, self);
        proof {
            assert(is_queue_of(self@, before[0]));
            assert(self@.selects(false, before[0].id));
            assert(self@.reads_from(before[0].id));
            assert forall|id: ID| #[trigger] self@.reads_from(id) implies subscribed_after(
                self@.log[id].svar().queue,
                self@.version,
                listens_to(listener),
                seen[id],
            ) by {
                assert(self@.selects(false, id));
                assert(has_queue(before, id));
                let k = choose|k: int| 0 <= k < before.len() && before[k].id == id;
                assert(is_queue_of(self@, before[k]));
                assert(before[k].becomes(queues@[k]));
            }
            assert(!self@.is_signalled(seen));
            assert(self@.waits_seeing(seen, WaitFor::Signal(listener)));
        }
        WaitFor::Signal(listener)
    }

    /// Unpark any thread waiting on any of the modified `TVar`s.
    pub fn notify(self, commit_version: Version)
        ensures
            self@.wakes(commit_version),
    {
        if !self.has_writes {
            return;
        }
        let queues = self.lock_queues(true);
        let ghost before = queues@;
        assert forall|i: int| 0 <= i < before.len() implies (#[trigger] before[i]).fits()
            && self@.log.contains_key(before[i].id) && self@.log[before[i].id].write()
            && self@.log[before[i].id].svar().queue == before[i].mutex by {
            assert(is_queue_of(self@, before[i]));
            assert(self@.selects(true, before[i].id));
        }
        let queues = queues.notify_all(&self, commit_version);
        assert forall|id: ID| #[trigger] self@.writes_to(id) implies notified(
            self@.log[id].svar().queue,
            commit_version,
        ) by {
            assert(self@.selects(true, id));
            assert(has_queue(before, id));
            let k = choose|k: int| 0 <= k < before.len() && before[k].id == id;
            assert(is_queue_of(self@, before[k]));
            assert(before[k].becomes(queues@[k]));
            assert(notified_after(self@.log[id].svar().queue, commit_version, before[k].turn));
        }
    }
}

impl Clone for Transaction {
    fn clone(&self) -> (r: Self)
        ensures
            r@ == self@,
    {
        Transaction {
            version: self.version,
            log: self.log.clone(),
            has_writes: self.has_writes,
            empty_retry_wait_timeout: self.empty_retry_wait_timeout,
        }
    }
}

/// What contracts see of a transaction is what it holds.
proof fn view_leaves_nothing_out(tx: Transaction)
    ensures
        tx@.version == tx.version,
        tx@.log == tx.log@,
        tx@.has_writes == tx.has_writes,
        tx@.empty_retry_wait_timeout == tx.empty_retry_wait_timeout,
{
}

/// What a transaction that has to be retried waits for.
pub enum WaitFor {
    /// A variable that it read has changed already: it can be retried straight away.
    Nothing,
    /// A signal that a variable that it read has changed.
    Signal(Listener),
    /// It has not read anything, so there is nothing to signal a change: just some time.
    Timeout(Duration),
}

/// Whether a waiting transaction goes on listening once it has received this. It waits for a true
/// signal, and ignores pruning attempts from over subscribed variables; without any signaler left
/// there is nothing to wait for.
pub fn keep_waiting(received: Option<bool>) -> (r: bool)
    ensures
        r == (received == Some(false)),
{
    match received {
        Some(signal) => !signal,
        None => false,
    }
}

/// None of some versions is above another.
pub open spec fn none_above(versions: Seq<Version>, start: Version) -> bool {
    forall|i: int| 0 <= i < versions.len() ==> #[trigger] versions[i] <= start
}

/// Whether one of some queues has been signalled since a transaction started, by the versions of
/// the last commits that have signalled them.
pub fn has_updates(last_written: &Vec<Version>, start: Version) -> (r: bool)
    ensures
        r == exists|i: int| 0 <= i < last_written@.len() && #[trigger] last_written@[i] > start,
        !r ==> none_above(last_written@, start),
{
    let mut i: usize = 0;
    while i < last_written.len()
        invariant
            i <= last_written@.len(),
            forall|j: int| 0 <= j < i ==> last_written@[j] <= start,
        decreases last_written@.len() - i,
    {
        if last_written[i] > start {
            return true;
        }
        i = i + 1;
    }
    false
}

/// Whether a commit may go on, by the versions that it has observed of the variables in its log:
/// it has observed all of them, and none has been written since it was logged.
pub fn validates(entries: &Vec<(ID, &LVar)>, observed: &Vec<Version>) -> (r: bool)
    ensures
        r == (observed@.len() == entries@.len() && forall|i: int|
            0 <= i < entries@.len() ==> observed@[i] <= entries@[i].1.vvar().version),
{
    if observed.len() != entries.len() {
        return false;
    }
    let mut i: usize = 0;
    while i < entries.len()
        invariant
            i <= entries@.len(),
            observed@.len() == entries@.len(),
            forall|j: int| 0 <= j < i ==> observed@[j] <= entries@[j].1.vvar().version,
        decreases entries@.len() - i,
    {
        if entries[i].1.outdated_by(observed[i]) {
            return false;
        }
        i = i + 1;
    }
    true
}

/// A channel has been added to a queue as its change with number `n`, and no commit above
/// `version` had signalled the queue, which is changed by waiters and commits alone.
pub open spec fn subscribed_after(
    queue: Mutex<WaitQueue>,
    version: Version,
    channel: int,
    n: nat,
) -> bool {
    let states = queue_states(queue);
    &&& well_kept(states)
    &&& states.contains_key(n)
    &&& states[n].last_written() <= version
    &&& states.contains_key(n + 1)
    &&& states[n].adds(channel, states[n + 1])
}

/// A commit has signalled a queue as its change with number `n`.
pub open spec fn notified_after(queue: Mutex<WaitQueue>, commit_version: Version, n: nat) -> bool {
    let states = queue_states(queue);
    &&& states.contains_key(n)
    &&& states.contains_key(n + 1)
    &&& states[n].notifies(commit_version, states[n + 1])
}

/// A commit has signalled a queue.
pub open spec fn notified(queue: Mutex<WaitQueue>, commit_version: Version) -> bool {
    exists|n: nat| notified_after(queue, commit_version, n)
}

/// A variable has not been written since it was logged, as of the store with number `n`.
pub open spec fn current(lvar: LVar, n: nat) -> bool {
    stamps(lvar.svar().vvar)[n] <= lvar.vvar().version
}

/// The locks of some variables of a log were taken, each when the given number of stores had been
/// made. They were taken by increasing ID, and each one only after all before it had been found
/// current.
pub open spec fn looks_at(log: Map<ID, LVar>, seen: Map<ID, nat>) -> bool {
    &&& forall|id: ID| #[trigger]
        seen.contains_key(id) ==> {
            &&& log.contains_key(id)
            &&& taken(log[id].svar().vvar, seen[id])
            &&& stamps(log[id].svar().vvar).contains_key(seen[id])
            &&& rises(stamps(log[id].svar().vvar))
        }
    &&& forall|id: ID, other: ID|
        #[trigger] seen.contains_key(id) && #[trigger] log.contains_key(other) && other < id
            ==> seen.contains_key(other) && current(log[other], seen[other])
}

/// All variables of a log were looked at and found current.
pub open spec fn all_current(log: Map<ID, LVar>, seen: Map<ID, nat>) -> bool {
    forall|id: ID| #[trigger]
        log.contains_key(id) ==> seen.contains_key(id) && current(log[id], seen[id])
}

/// A variable of a log was found to have been written since it was logged.
pub open spec fn some_outdated(log: Map<ID, LVar>, seen: Map<ID, nat>) -> bool {
    exists|id: ID| #[trigger] seen.contains_key(id) && !current(log[id], seen[id])
}

/// The logged value has been stored under a version, right after what the variable held at the
/// store with number `n`.
pub open spec fn published_after(lvar: LVar, version: Version, n: nat) -> bool {
    held_at(lvar.svar().vvar, n + 1, VVar { version, value: lvar.vvar().value })
}

/// Everything that a log has written has been stored under a version, each as the next store after
/// what was seen.
pub open spec fn all_published(
    log: Map<ID, LVar>,
    seen: Map<ID, nat>,
    version: Version,
) -> bool {
    forall|id: ID| #[trigger]
        log.contains_key(id) && log[id].write() ==> published_after(log[id], version, seen[id])
}

/// Every lock that was taken has been given back: after one more store if the variable has been
/// written and is `published`, and otherwise as it was.
pub open spec fn all_given_back(
    log: Map<ID, LVar>,
    seen: Map<ID, nat>,
    published: bool,
) -> bool {
    forall|id: ID| #[trigger]
        seen.contains_key(id) ==> given_back(
            log[id].svar().vvar,
            if published && log[id].write() {
                seen[id] + 1
            } else {
                seen[id]
            },
        )
}

/// A lock has been taken for an entry of the log, and `observed` is the version that it holds.
spec fn is_lock_of(lock: EntryView, entry: (ID, &LVar), observed: Version) -> bool {
    &&& lock.fits()
    &&& lock.id == entry.0
    &&& lock.lvar == *entry.1
    &&& taken(lock.lock, lock.turn)
    &&& lock.target.version == observed
}

/// The number of stores made in each of some locks, by ID.
spec fn turns(locks: Seq<EntryView>) -> Map<ID, nat> {
    Map::new(
        |id: ID| exists|i: int| 0 <= i < locks.len() && locks[i].id == id,
        |id: ID| locks[choose|i: int| 0 <= i < locks.len() && locks[i].id == id].turn,
    )
}

/// What has been seen of the log through locks that were taken in order.
proof fn lemma_looks_at(
    locks: Seq<EntryView>,
    observed: Seq<Version>,
    entries: Seq<(ID, &LVar)>,
    log: Map<ID, LVar>,
)
    requires
        in_order(entries, log),
        locks.len() == observed.len() <= entries.len(),
        forall|i: int|
            0 <= i < locks.len() ==> is_lock_of(#[trigger] locks[i], entries[i], observed[i]),
        forall|i: int| 0 <= i < locks.len() - 1 ==> (#[trigger] locks[i]).is_current(),
        locks.len() < entries.len() ==> locks.len() > 0 && !locks.last().is_current(),
    ensures
        looks_at(log, turns(locks)),
        if observed.len() == entries.len() && forall|i: int|
            0 <= i < entries.len() ==> observed[i] <= entries[i].1.vvar().version {
            all_current(log, turns(locks)) && covers(locks, log)
        } else {
            some_outdated(log, turns(locks)) && !all_current(log, turns(locks))
        },
{
    let seen = turns(locks);
    assert forall|i: int| 0 <= i < locks.len() implies seen.contains_key(
        (#[trigger] locks[i]).id,
    ) && seen[locks[i].id] == locks[i].turn && log.contains_key(locks[i].id) && log[locks[i].id]
        == locks[i].lvar && locks[i].is_current() == current(
        log[locks[i].id],
        seen[locks[i].id],
    ) by {
        let id = locks[i].id;
        let k = choose|k: int| 0 <= k < locks.len() && locks[k].id == id;
        assert(is_lock_of(locks[i], entries[i], observed[i]));
        assert(is_lock_of(locks[k], entries[k], observed[k]));
        if k < i {
            assert(entries[k].0 < entries[i].0);
        } else if i < k {
            assert(entries[i].0 < entries[k].0);
        }
    }
    assert forall|id: ID| #[trigger] seen.contains_key(id) implies log.contains_key(id) && taken(
        log[id].svar().vvar,
        seen[id],
    ) && stamps(log[id].svar().vvar).contains_key(seen[id]) && rises(
        stamps(log[id].svar().vvar),
    ) by {
        let i = choose|i: int| 0 <= i < locks.len() && locks[i].id == id;
        assert(is_lock_of(locks[i], entries[i], observed[i]));
    }
    assert forall|id: ID, other: ID| #[trigger]
        seen.contains_key(id) && #[trigger] log.contains_key(other) && other
            < id implies seen.contains_key(other) && current(log[other], seen[other]) by {
        let i = choose|i: int| 0 <= i < locks.len() && locks[i].id == id;
        let j = choose|j: int| 0 <= j < entries.len() && entries[j].0 == other;
        assert(is_lock_of(locks[i], entries[i], observed[i]));
        if i <= j {
            assert(entries[i].0 <= entries[j].0);
        }
        assert(is_lock_of(locks[j], entries[j], observed[j]));
        assert(locks[j].is_current());
    }
    if observed.len() == entries.len() && forall|i: int|
        0 <= i < entries.len() ==> observed[i] <= entries[i].1.vvar().version {
        assert forall|i: int| 0 <= i < locks.len() implies (#[trigger] locks[i]).is_current() by {
            assert(is_lock_of(locks[i], entries[i], observed[i]));
        }
        assert forall|id: ID| #[trigger] log.contains_key(id) implies seen.contains_key(id)
            && current(log[id], seen[id]) && exists|i: int|
            0 <= i < locks.len() && locks[i].id == id by {
            let j = choose|j: int| 0 <= j < entries.len() && entries[j].0 == id;
            assert(is_lock_of(locks[j], entries[j], observed[j]));
            assert(locks[j].id == id);
        }
    } else {
        let i = if observed.len() == entries.len() {
            choose|i: int| 0 <= i < entries.len() && observed[i] > entries[i].1.vvar().version
        } else {
            locks.len() - 1
        };
        assert(is_lock_of(locks[i], entries[i], observed[i]));
        assert(!locks[i].is_current());
        assert(seen.contains_key(locks[i].id));
    }
}

/// What has been stored through the locks of a whole log.
proof fn lemma_published(
    before: Seq<EntryView>,
    after: Seq<EntryView>,
    log: Map<ID, LVar>,
    version: Version,
)
    requires
        covers(before, log),
        after == before.map_values(|entry: EntryView| entry.published(version)),
        forall|i: int| 0 <= i < after.len() ==> (#[trigger] after[i]).fits(),
    ensures
        all_published(log, turns(before), version),
{
    let seen = turns(before);
    assert forall|id: ID| #[trigger]
        log.contains_key(id) && log[id].write() implies published_after(
        log[id],
        version,
        seen[id],
    ) by {
        let k = choose|k: int| 0 <= k < before.len() && before[k].id == id;
        assert(before[k].fits());
        assert(after[k].fits());
    }
}

/// What has been given back through the locks that were taken in order.
proof fn lemma_given_back(
    before: Seq<EntryView>,
    after: Seq<EntryView>,
    entries: Seq<(ID, &LVar)>,
    observed: Seq<Version>,
    log: Map<ID, LVar>,
    version: Option<Version>,
)
    requires
        in_order(entries, log),
        before.len() == observed.len() <= entries.len(),
        forall|i: int|
            0 <= i < before.len() ==> is_lock_of(#[trigger] before[i], entries[i], observed[i]),
        match version {
            Some(version) => after == before.map_values(
                |entry: EntryView| entry.published(version),
            ),
            None => after == before,
        },
        forall|i: int| 0 <= i < after.len() ==> given_back((#[trigger] after[i]).lock, after[i].turn),
    ensures
        all_given_back(log, turns(before), version is Some),
{
    let seen = turns(before);
    assert forall|id: ID| #[trigger] seen.contains_key(id) implies given_back(
        log[id].svar().vvar,
        if version is Some && log[id].write() {
            seen[id] + 1
        } else {
            seen[id]
        },
    ) by {
        let i = choose|i: int| 0 <= i < before.len() && before[i].id == id;
        assert(is_lock_of(before[i], entries[i], observed[i]));
        assert(given_back(after[i].lock, after[i].turn));
    }
}

/// A queue has been taken for a variable of a log.
spec fn is_queue_of(tx: TransactionView, queue: QueueView) -> bool {
    &&& queue.fits()
    &&& tx.log.contains_key(queue.id)
    &&& queue.mutex == tx.log[queue.id].svar().queue
    &&& queue_taken(queue.mutex, queue.turn)
}

/// One of some queues is that of a variable.
spec fn has_queue(queues: Seq<QueueView>, id: ID) -> bool {
    exists|k: int| 0 <= k < queues.len() && queues[k].id == id
}

/// Some queues are those of the variables that have been written, or read, by increasing ID.
spec fn queues_of(tx: TransactionView, written: bool, queues: Seq<QueueView>) -> bool {
    &&& forall|k: int|
        0 <= k < queues.len() ==> {
            &&& is_queue_of(tx, #[trigger] queues[k])
            &&& tx.selects(written, queues[k].id)
        }
    &&& increasing(queue_order(queues))
    &&& forall|id: ID| #[trigger] tx.selects(written, id) ==> has_queue(queues, id)
}

/// The number of changes made to each of some queues, by ID.
spec fn changes(queues: Seq<QueueView>) -> Map<ID, nat> {
    Map::new(
        |id: ID| has_queue(queues, id),
        |id: ID| queues[choose|k: int| 0 <= k < queues.len() && queues[k].id == id].turn,
    )
}

/// What has been seen of the queues that were taken.
proof fn lemma_changes(tx: TransactionView, written: bool, queues: Seq<QueueView>)
    requires
        queues_of(tx, written, queues),
    ensures
        forall|k: int|
            0 <= k < queues.len() ==> changes(queues)[(#[trigger] queues[k]).id]
                == queues[k].turn,
        forall|id: ID| #[trigger]
            tx.selects(written, id) ==> {
                let mutex = tx.log[id].svar().queue;
                let n = changes(queues)[id];
                &&& queue_taken(mutex, n)
                &&& queue_states(mutex).contains_key(n)
                &&& well_kept(queue_states(mutex))
            },
{
    let seen = changes(queues);
    assert forall|k: int| 0 <= k < queues.len() implies seen[(#[trigger] queues[k]).id]
        == queues[k].turn by {
        let id = queues[k].id;
        assert(has_queue(queues, id));
        let l = choose|l: int| 0 <= l < queues.len() && queues[l].id == id;
        assert(queue_order(queues)[k] == queue_order(queues)[l]);
    }
    assert forall|id: ID| #[trigger] tx.selects(written, id) implies queue_taken(
        tx.log[id].svar().queue,
        seen[id],
    ) && queue_states(tx.log[id].svar().queue).contains_key(seen[id]) && well_kept(
        queue_states(tx.log[id].svar().queue),
    ) by {
        assert(has_queue(queues, id));
        let k = choose|k: int| 0 <= k < queues.len() && queues[k].id == id;
        assert(is_queue_of(tx, queues[k]));
    }
}

/// `entries` holds the variables of a log, each one once, by increasing ID.
pub open spec fn in_order(entries: Seq<(ID, &LVar)>, log: Map<ID, LVar>) -> bool {
    &&& forall|i: int, j: int| 0 <= i < j < entries.len() ==> entries[i].0 < entries[j].0
    &&& forall|i: int|
        0 <= i < entries.len() ==> log.contains_key(#[trigger] entries[i].0) && log[entries[i].0]
            == *entries[i].1
    &&& forall|id: ID| #[trigger]
        log.contains_key(id) ==> exists|i: int| 0 <= i < entries.len() && entries[i].0 == id
}

} // verus!
