//! The locks that guard committed values and wait queues, from `parking_lot`.
//!
//! A lock is shared, so what it holds when it is taken is whatever some thread left there. The
//! contracts say what is known in spite of that. What a lock holds is counted by the stores made in
//! it: [`held`] says of a value that it was there after so many stores, and [`stamps`] gives the
//! version that was there. Versions never go back, and the values are those that the lock was made
//! for ([`admitted`]), since [`store`] is held to both.
//!
//! Commits take their locks through [`Locks`], and waits and wake-ups through [`Queues`]: one by one,
//! by increasing ID, so that no two transactions wait for each other.

use crate::auxtx::Aux;
use crate::channel::{channel_of, clone_signaler, Signaler};
use crate::transaction::Transaction;
use crate::value::DynValue;
use crate::vars::{LVar, SVar, VVar, WaitQueue, ID};
use crate::version::Version;
use parking_lot::{Mutex, MutexGuard, RwLock, RwLockReadGuard, RwLockWriteGuard};
use vstd::prelude::*;

verus! {

/// `parking_lot::RawRwLock`, opaque.
#[verifier::external_type_specification]
#[verifier::external_body]
pub struct ExRawRwLock(parking_lot::RawRwLock);

/// `parking_lot::RawMutex`, opaque.
#[verifier::external_type_specification]
#[verifier::external_body]
pub struct ExRawMutex(parking_lot::RawMutex);

/// The type behind `parking_lot::RwLock`, opaque.
#[verifier::external_type_specification]
#[verifier::external_body]
#[verifier::reject_recursive_types(R)]
#[verifier::reject_recursive_types(T)]
pub struct ExRwLock<R, T: ?Sized>(parking_lot::lock_api::RwLock<R, T>);

/// The type behind `parking_lot::Mutex`, opaque.
#[verifier::external_type_specification]
#[verifier::external_body]
#[verifier::reject_recursive_types(R)]
#[verifier::reject_recursive_types(T)]
pub struct ExMutex<R, T: ?Sized>(parking_lot::lock_api::Mutex<R, T>);

/// A `parking_lot::RwLockReadGuard`, opaque: one taking of a lock for reading.
#[verifier::external_body]
pub struct ReadGuard<'a> {
    guard: RwLockReadGuard<'a, VVar>,
}

/// A `parking_lot::RwLockWriteGuard`, opaque: one taking of a lock for writing.
#[verifier::external_body]
pub struct WriteGuard<'a> {
    guard: RwLockWriteGuard<'a, VVar>,
}

/// A `parking_lot::MutexGuard`, opaque: one taking of a mutex.
#[verifier::external_body]
pub struct QueueGuard<'a> {
    guard: MutexGuard<'a, WaitQueue>,
}

/// `v` was what a lock held after `n` stores. Contracts only ever add to this.
pub uninterp spec fn held(lock: RwLock<VVar>, n: nat, v: VVar) -> bool;

/// The version of what a lock holds over time: by `n`, after `n` stores. Unlike the value beside it,
/// a version is always data of the running program.
pub uninterp spec fn stamps(lock: RwLock<VVar>) -> Map<nat, Version>;

/// A lock was taken, for reading or for writing, when `n` stores had been made in it. Contracts only
/// ever add to this.
pub uninterp spec fn taken(lock: RwLock<VVar>, n: nat) -> bool;

/// A lock was given back when `n` stores had been made in it. Contracts only ever add to this.
pub uninterp spec fn given_back(lock: RwLock<VVar>, n: nat) -> bool;

/// The values that a lock was made for. It never holds any other.
pub uninterp spec fn admitted(lock: RwLock<VVar>) -> Set<DynValue>;

/// The lock that a read guard holds: what `RwLockReadGuard::rwlock` returns.
pub uninterp spec fn read_lock_of(guard: ReadGuard<'_>) -> RwLock<VVar>;

/// What a read guard gives access to.
pub uninterp spec fn read_target(guard: ReadGuard<'_>) -> VVar;

/// How many stores were made before a read guard was taken. Nobody stores while it is there.
pub uninterp spec fn read_turn_of(guard: ReadGuard<'_>) -> nat;

/// The lock that a write guard holds: what `RwLockWriteGuard::rwlock` returns.
pub uninterp spec fn write_lock_of(guard: WriteGuard<'_>) -> RwLock<VVar>;

/// What a write guard gives access to.
pub uninterp spec fn write_target(guard: WriteGuard<'_>) -> VVar;

/// How many stores came before the next one that a write guard makes. Nobody else stores while
/// the guard is there.
pub uninterp spec fn write_turn_of(guard: WriteGuard<'_>) -> nat;

/// What a mutex holds over time: by `n`, its queue after `n` changes.
pub uninterp spec fn queue_states(mutex: Mutex<WaitQueue>) -> Map<nat, WaitQueue>;

/// A mutex was taken when `n` changes had been made to its queue. Contracts only ever add to this.
pub uninterp spec fn queue_taken(mutex: Mutex<WaitQueue>, n: nat) -> bool;

/// The queue that a mutex guard gives access to.
pub uninterp spec fn queue_target(guard: QueueGuard<'_>) -> WaitQueue;

/// The mutex that a guard holds: what `MutexGuard::mutex` returns.
pub uninterp spec fn mutex_of(guard: QueueGuard<'_>) -> Mutex<WaitQueue>;

/// How many changes came before the next one that a mutex guard gives access for. Nobody else
/// changes the queue while the guard is there.
pub uninterp spec fn queue_turn_of(guard: QueueGuard<'_>) -> nat;

/// Versions rise with every store.
pub open spec fn rises(versions: Map<nat, Version>) -> bool {
    forall|m: nat, n: nat|
        m < n && #[trigger] versions.contains_key(m) && #[trigger] versions.contains_key(n)
            ==> versions[m] < versions[n]
}

/// `v` was what a lock held after `n` stores, and versions rise in that lock.
pub open spec fn held_at(lock: RwLock<VVar>, n: nat, v: VVar) -> bool {
    &&& held(lock, n, v)
    &&& stamps(lock).contains_key(n)
    &&& stamps(lock)[n] == v.version
    &&& rises(stamps(lock))
}

/// `RwLock::new`: a lock that holds `v`. Its values are those of type `T` and its versions rise;
/// [`store`] is held to both.
#[verifier::external_body]
pub(crate) fn new_lock<T: 'static>(v: VVar) -> (lock: RwLock<VVar>)
    requires
        v.value.is_a::<T>(),
    ensures
        held(lock, 0, v),
        stamps(lock).contains_key(0),
        stamps(lock)[0] == v.version,
        rises(stamps(lock)),
        forall|d: DynValue| #[trigger] admitted(lock).contains(d) <==> d.is_a::<T>(),
{
    RwLock::new(v)
}

/// `RwLock::read`: waits until no writer has the lock. The guard gives access to what the lock
/// holds: a value that it was made for, under a version above all before it. Not to be called where this thread has the lock already, since it would wait for itself.
#[verifier::external_body]
fn read_lock(lock: &RwLock<VVar>) -> (guard: ReadGuard<'_>)
    ensures
        read_lock_of(guard) == *lock,
        taken(*lock, read_turn_of(guard)),
        held(*lock, read_turn_of(guard), read_target(guard)),
        stamps(*lock).contains_key(read_turn_of(guard)),
        stamps(*lock)[read_turn_of(guard)] == read_target(guard).version,
        rises(stamps(read_lock_of(guard))),
        admitted(*lock).contains(read_target(guard).value),
{
    ReadGuard { guard: lock.read() }
}

/// `RwLockReadGuard::deref`: what the lock holds.
#[verifier::external_body]
fn read_guard_get<'a>(guard: &'a ReadGuard<'_>) -> (v: &'a VVar)
    ensures
        *v == read_target(*guard),
{
    &*guard.guard
}

/// `RwLock::write`: waits until nobody else has the lock. The guard gives access to what the lock
/// holds: a value that it was made for, under a version above all before it. Not to be called where this thread has the lock already, since it would wait for itself.
#[verifier::external_body]
fn write_lock(lock: &RwLock<VVar>) -> (guard: WriteGuard<'_>)
    ensures
        write_lock_of(guard) == *lock,
        taken(*lock, write_turn_of(guard)),
        held(*lock, write_turn_of(guard), write_target(guard)),
        stamps(*lock).contains_key(write_turn_of(guard)),
        stamps(*lock)[write_turn_of(guard)] == write_target(guard).version,
        rises(stamps(write_lock_of(guard))),
        admitted(*lock).contains(write_target(guard).value),
{
    WriteGuard { guard: lock.write() }
}

/// `RwLockWriteGuard::deref`: what the lock holds.
#[verifier::external_body]
fn write_guard_get<'a>(guard: &'a WriteGuard<'_>) -> (v: &'a VVar)
    ensures
        *v == write_target(*guard),
{
    &*guard.guard
}

/// Drops a read guard, whose lock `RwLockReadGuard::rwlock` gives: the lock is given back as it was
/// taken.
#[verifier::external_body]
fn release_read<'a>(guard: ReadGuard<'a>) -> (lock: &'a RwLock<VVar>)
    ensures
        *lock == read_lock_of(guard),
        given_back(*lock, read_turn_of(guard)),
{
    let lock = RwLockReadGuard::rwlock(&guard.guard);
    drop(guard);
    lock
}

/// Drops a write guard, whose lock `RwLockWriteGuard::rwlock` gives: the lock is given back with
/// what has been stored through the guard, and nothing after that.
#[verifier::external_body]
fn release_write<'a>(guard: WriteGuard<'a>) -> (lock: &'a RwLock<VVar>)
    ensures
        *lock == write_lock_of(guard),
        given_back(*lock, write_turn_of(guard)),
{
    let lock = RwLockWriteGuard::rwlock(&guard.guard);
    drop(guard);
    lock
}

/// `RwLockWriteGuard::deref_mut`, assigned to: the lock holds `v` from here on. The value has to be
/// one that the lock was made for, and the version above the one before.
#[verifier::external_body]
fn store(guard: &mut WriteGuard<'_>, v: VVar)
    requires
        admitted(write_lock_of(*old(guard))).contains(v.value),
        v.version > write_target(*old(guard)).version,
    ensures
        write_lock_of(*final(guard)) == write_lock_of(*old(guard)),
        write_target(*final(guard)) == v,
        write_turn_of(*final(guard)) == write_turn_of(*old(guard)) + 1,
        held(write_lock_of(*final(guard)), write_turn_of(*final(guard)), v),
        stamps(write_lock_of(*final(guard))).contains_key(write_turn_of(*final(guard))),
        stamps(write_lock_of(*final(guard)))[write_turn_of(*final(guard))] == v.version,
{
    *guard.guard = v;
}

/// A queue changes one step at a time, by new waiters and notifications alone.
pub open spec fn well_kept(states: Map<nat, WaitQueue>) -> bool {
    &&& forall|m: nat, n: nat|
        m < n && #[trigger] states.contains_key(n) ==> #[trigger] states.contains_key(m)
    &&& forall|m: nat, n: nat|
        n == m + 1 && #[trigger] states.contains_key(n) && #[trigger] states.contains_key(m)
            ==> states[m].changes_to(states[n])
}

/// `Mutex::new`: a mutex that holds `queue`. It is changed one step at a time, by new waiters and
/// notifications alone; [`store_queue`] is held to that.
#[verifier::external_body]
pub(crate) fn new_mutex(queue: WaitQueue) -> (mutex: Mutex<WaitQueue>)
    ensures
        queue_states(mutex).contains_key(0),
        queue_states(mutex)[0] == queue,
        well_kept(queue_states(mutex)),
{
    Mutex::new(queue)
}

/// `Mutex::lock`: waits until nobody else has the mutex. The guard gives access to the queue, which
/// has come there by new waiters and notifications alone. Not to be called where this thread has the mutex already, since it would wait for itself.
#[verifier::external_body]
fn lock_queue(mutex: &Mutex<WaitQueue>) -> (guard: QueueGuard<'_>)
    ensures
        mutex_of(guard) == *mutex,
        queue_taken(*mutex, queue_turn_of(guard)),
        queue_states(*mutex).contains_key(queue_turn_of(guard)),
        queue_states(*mutex)[queue_turn_of(guard)] == queue_target(guard),
        well_kept(queue_states(mutex_of(guard))),
{
    QueueGuard { guard: mutex.lock() }
}

/// `MutexGuard::deref`: the queue.
#[verifier::external_body]
fn queue_get<'a>(guard: &'a QueueGuard<'_>) -> (queue: &'a WaitQueue)
    ensures
        *queue == queue_target(*guard),
{
    &*guard.guard
}

/// `MutexGuard::deref_mut`, assigned to: the mutex holds `queue` from here on. It has to be the queue
/// before with a new waiter, or after a notification.
#[verifier::external_body]
fn store_queue(guard: &mut QueueGuard<'_>, queue: WaitQueue)
    requires
        queue_target(*old(guard)).changes_to(queue),
    ensures
        mutex_of(*final(guard)) == mutex_of(*old(guard)),
        queue_target(*final(guard)) == queue,
        queue_turn_of(*final(guard)) == queue_turn_of(*old(guard)) + 1,
        queue_states(mutex_of(*final(guard))).contains_key(queue_turn_of(*final(guard))),
        queue_states(mutex_of(*final(guard)))[queue_turn_of(*final(guard))] == queue,
{
    *guard.guard = queue;
}

/// What a lock holds now.
pub(crate) fn load(lock: &RwLock<VVar>) -> (v: VVar)
    ensures
        exists|n: nat| taken(*lock, n) && #[trigger] held_at(*lock, n, v),
        admitted(*lock).contains(v.value),
{
    let guard = read_lock(lock);
    let v = read_guard_get(&guard).clone();
    assert(held_at(*lock, read_turn_of(guard), v));
    v
}

/// A lock that is held: shared with other readers, or not shared at all.
enum Guard<'a> {
    Read(ReadGuard<'a>),
    Write(WriteGuard<'a>),
}

/// The lock of a logged variable, held.
struct Entry<'a> {
    id: ID,
    lvar: &'a LVar,
    guard: Guard<'a>,
}

/// The lock of a logged variable that is held, as contracts see it.
pub struct EntryView {
    pub id: ID,
    /// What is logged of the variable.
    pub lvar: LVar,
    /// The lock that is held.
    pub lock: RwLock<VVar>,
    /// It is not shared, so that it can be stored to.
    pub exclusive: bool,
    /// How many stores have been made in it.
    pub turn: nat,
    /// What it holds.
    pub target: VVar,
}

impl EntryView {
    /// The lock is that of the logged variable, and it can be stored to if the variable has been
    /// written.
    pub open spec fn fits(self) -> bool {
        &&& self.lock == self.lvar.svar().vvar
        &&& self.exclusive == self.lvar.write()
        &&& held_at(self.lock, self.turn, self.target)
    }

    /// The variable has not been written since it was logged.
    pub open spec fn is_current(self) -> bool {
        self.target.version <= self.lvar.vvar().version
    }

    /// The lock after a commit: it holds the logged value if that was written, by one more store,
    /// and is as it was otherwise.
    pub open spec fn published(self, version: Version) -> EntryView {
        if self.exclusive {
            EntryView {
                turn: self.turn + 1,
                target: VVar { version, value: self.lvar.vvar().value },
                ..self
            }
        } else {
            self
        }
    }
}

impl<'a> Entry<'a> {
    closed spec fn view(self) -> EntryView {
        match self.guard {
            Guard::Read(guard) => EntryView {
                id: self.id,
                lvar: *self.lvar,
                lock: read_lock_of(guard),
                exclusive: false,
                turn: read_turn_of(guard),
                target: read_target(guard),
            },
            Guard::Write(guard) => EntryView {
                id: self.id,
                lvar: *self.lvar,
                lock: write_lock_of(guard),
                exclusive: true,
                turn: write_turn_of(guard),
                target: write_target(guard),
            },
        }
    }
}

/// Some IDs increase.
pub open spec fn increasing(ids: Seq<ID>) -> bool {
    forall|i: int, j: int| 0 <= i < j < ids.len() ==> ids[i] < ids[j]
}

/// An ID that is above the last one goes on with the order.
proof fn lemma_push_in_turn(ids: Seq<ID>, id: ID)
    requires
        increasing(ids),
        ids.len() > 0 ==> ids.last() < id,
    ensures
        increasing(ids.push(id)),
{
}

/// The locks that a commit holds, in the order in which they were taken.
pub struct Locks<'a> {
    entries: Vec<Entry<'a>>,
}

/// Some locks are those of all the variables in a log, and none of them has been written since it
/// was logged.
pub open spec fn covers(locks: Seq<EntryView>, log: Map<ID, LVar>) -> bool {
    &&& forall|i: int|
        0 <= i < locks.len() ==> {
            &&& (#[trigger] locks[i]).fits()
            &&& locks[i].is_current()
            &&& log.contains_key(locks[i].id)
            &&& log[locks[i].id] == locks[i].lvar
        }
    &&& forall|id: ID| #[trigger]
        log.contains_key(id) ==> exists|i: int| 0 <= i < locks.len() && locks[i].id == id
}

impl<'a> View for Locks<'a> {
    type V = Seq<EntryView>;

    closed spec fn view(&self) -> Seq<EntryView> {
        self.entries@.map_values(|entry: Entry<'a>| entry.view())
    }
}

/// The variables of some locks, in the order in which these were taken.
pub open spec fn lock_order(locks: Seq<EntryView>) -> Seq<ID> {
    locks.map_values(|entry: EntryView| entry.id)
}

impl<'a> Locks<'a> {
    /// Locks are taken by increasing ID.
    #[verifier::type_invariant]
    pub open(crate) spec fn in_turn(self) -> bool {
        increasing(lock_order(self@))
    }

    /// No locks yet.
    pub(crate) fn new() -> (locks: Locks<'a>)
        ensures
            locks@ == Seq::<EntryView>::empty(),
    {
        let entries: Vec<Entry<'a>> = Vec::new();
        assert(entries@.map_values(|entry: Entry<'a>| entry.view()) =~= Seq::empty());
        Locks { entries }
    }

    /// Take one more lock, and return the version of what it holds: the write lock of a variable
    /// that was written, the read lock of one that was only read. Locks are taken by increasing ID.
    pub(crate) fn take(self, id: ID, lvar: &'a LVar) -> (r: (Locks<'a>, Version))
        requires
            self@.len() > 0 ==> self@.last().id < id,
        ensures
            exists|entry: EntryView|
                {
                    &&& #[trigger] entry.fits()
                    &&& r.0@ == self@.push(entry)
                    &&& entry.id == id
                    &&& entry.lvar == *lvar
                    &&& taken(entry.lock, entry.turn)
                    &&& entry.target.version == r.1
                },
    {
        proof {
            use_type_invariant(&self);
        }
        let (guard, observed) = if lvar.write {
            let guard = write_lock(&lvar.svar.vvar);
            let observed: Version = write_guard_get(&guard).version;
            (Guard::Write(guard), observed)
        } else {
            let guard = read_lock(&lvar.svar.vvar);
            let observed: Version = read_guard_get(&guard).version;
            (Guard::Read(guard), observed)
        };
        let entry = Entry { id, lvar, guard };
        let ghost taken_entry = entry.view();
        proof {
            lemma_push_in_turn(lock_order(self@), id);
            assert(lock_order(self@.push(taken_entry)) =~= lock_order(self@).push(id));
            assert(self.entries@.push(entry).map_values(|entry: Entry<'a>| entry.view())
                =~= self@.push(taken_entry));
            assert(taken_entry.fits());
        }
        let mut entries = self.entries;
        entries.push(entry);
        (Locks { entries }, observed)
    }

    /// Move the clock forward, and store every written value under the version that it gives. The
    /// auxiliary transaction has been committed, and all locks of the transaction are held; they
    /// are still held afterwards.
    pub(crate) fn publish<X: Aux, N: FnOnce() -> Version>(
        self,
        tx: &Transaction,
        atx: Ghost<X>,
        next_version: N,
    ) -> (r: (Version, Locks<'a>))
        requires
            covers(self@, tx@.log),
            call_ensures(X::commit, (atx@,), true),
            next_version.requires(()),
            forall|v: Version| #[trigger] next_version.ensures((), v) ==> tx@.precedes(v),
        ensures
            next_version.ensures((), r.0),
            r.1@ == self@.map_values(|entry: EntryView| entry.published(r.0)),
            forall|i: int| 0 <= i < r.1@.len() ==> (#[trigger] r.1@[i]).fits(),
    {
        proof {
            use_type_invariant(&self);
        }
        let ghost before = self@;
        let version = next_version();
        let ghost all = self.entries@;
        let mut entries: Vec<Entry<'a>> = Vec::new();
        for entry in it: self.entries
            invariant
                it.seq() == all,
                before == all.map_values(|entry: Entry<'a>| entry.view()),
                covers(before, tx@.log),
                tx@.precedes(version),
                entries@.len() == it.index(),
                forall|i: int|
                    0 <= i < entries@.len() ==> (#[trigger] entries@[i]).view()
                        == before[i].published(version) && entries@[i].view().fits(),
        {
            let ghost old_view = entry.view();
            assert(before[it.index()] == old_view);
            let Entry { id, lvar, guard } = entry;
            let guard = match guard {
                Guard::Write(guard) => {
                    proof {
                        use_type_invariant(lvar);
                    }
                    let mut guard = guard;
                    store(&mut guard, VVar { version, value: lvar.vvar.value.clone() });
                    Guard::Write(guard)
                },
                Guard::Read(guard) => Guard::Read(guard),
            };
            entries.push(Entry { id, lvar, guard });
        }
        proof {
            let after = entries@.map_values(|entry: Entry<'a>| entry.view());
            assert forall|i: int| 0 <= i < after.len() implies after[i] == before[i].published(
                version,
            ) && (#[trigger] after[i]).fits() by {
                assert(entries@[i].view() == before[i].published(version));
            }
            assert(after =~= before.map_values(|entry: EntryView| entry.published(version)));
            assert(lock_order(after) =~= lock_order(before));
        }
        (version, Locks { entries })
    }

    /// Give all of the locks back.
    pub(crate) fn release(self)
        ensures
            forall|i: int|
                0 <= i < self@.len() ==> given_back((#[trigger] self@[i]).lock, self@[i].turn),
    {
        let ghost before = self@;
        let ghost all = self.entries@;
        for entry in it: self.entries
            invariant
                it.seq() == all,
                before == all.map_values(|entry: Entry<'a>| entry.view()),
                forall|i: int|
                    0 <= i < it.index() ==> given_back(
                        (#[trigger] before[i]).lock,
                        before[i].turn,
                    ),
        {
            assert(before[it.index()] == entry.view());
            let _lock = match entry.guard {
                Guard::Read(guard) => release_read(guard),
                Guard::Write(guard) => release_write(guard),
            };
        }
    }
}

/// The wait queue of a variable, held.
struct QueueEntry<'a> {
    id: ID,
    guard: QueueGuard<'a>,
}

/// The wait queue of a variable that is held, as contracts see it.
pub struct QueueView {
    pub id: ID,
    /// The mutex that is held.
    pub mutex: Mutex<WaitQueue>,
    /// How many changes have been made to the queue.
    pub turn: nat,
    /// The queue.
    pub queue: WaitQueue,
}

impl QueueView {
    /// The queue is the present state of its mutex.
    pub open spec fn fits(self) -> bool {
        &&& queue_states(self.mutex).contains_key(self.turn)
        &&& queue_states(self.mutex)[self.turn] == self.queue
        &&& well_kept(queue_states(self.mutex))
    }

    /// `post` is this queue after one more change.
    pub open spec fn becomes(self, post: QueueView) -> bool {
        &&& post.fits()
        &&& post.id == self.id
        &&& post.mutex == self.mutex
        &&& post.turn == self.turn + 1
    }
}

impl<'a> QueueEntry<'a> {
    closed spec fn view(self) -> QueueView {
        QueueView {
            id: self.id,
            mutex: mutex_of(self.guard),
            turn: queue_turn_of(self.guard),
            queue: queue_target(self.guard),
        }
    }
}

/// The wait queues that a transaction holds, in the order in which they were taken. A queue gets
/// new waiters and is notified here, and is changed nowhere else.
pub struct Queues<'a> {
    entries: Vec<QueueEntry<'a>>,
}

impl<'a> View for Queues<'a> {
    type V = Seq<QueueView>;

    closed spec fn view(&self) -> Seq<QueueView> {
        self.entries@.map_values(|entry: QueueEntry<'a>| entry.view())
    }
}

/// The variables of some queues, in the order in which these were taken.
pub open spec fn queue_order(queues: Seq<QueueView>) -> Seq<ID> {
    queues.map_values(|entry: QueueView| entry.id)
}

impl<'a> Queues<'a> {
    /// Queues are taken by increasing ID.
    #[verifier::type_invariant]
    pub open(crate) spec fn in_turn(self) -> bool {
        increasing(queue_order(self@))
    }

    /// No queues yet.
    pub(crate) fn new() -> (queues: Queues<'a>)
        ensures
            queues@ == Seq::<QueueView>::empty(),
    {
        let entries: Vec<QueueEntry<'a>> = Vec::new();
        assert(entries@.map_values(|entry: QueueEntry<'a>| entry.view()) =~= Seq::empty());
        Queues { entries }
    }

    /// Take the queue of one more variable. Queues are taken by increasing ID.
    pub(crate) fn take(self, id: ID, svar: &'a SVar) -> (queues: Queues<'a>)
        requires
            self@.len() > 0 ==> self@.last().id < id,
        ensures
            exists|entry: QueueView|
                {
                    &&& #[trigger] entry.fits()
                    &&& queues@ == self@.push(entry)
                    &&& entry.id == id
                    &&& entry.mutex == svar.queue
                    &&& queue_taken(entry.mutex, entry.turn)
                },
    {
        proof {
            use_type_invariant(&self);
        }
        let entry = QueueEntry { id, guard: lock_queue(&svar.queue) };
        let ghost taken_entry = entry.view();
        proof {
            lemma_push_in_turn(queue_order(self@), id);
            assert(queue_order(self@.push(taken_entry)) =~= queue_order(self@).push(id));
            assert(self.entries@.push(entry).map_values(|entry: QueueEntry<'a>| entry.view())
                =~= self@.push(taken_entry));
            assert(taken_entry.fits());
        }
        let mut entries = self.entries;
        entries.push(entry);
        Queues { entries }
    }

    /// The versions of the last commits that have signalled the queues.
    pub(crate) fn last_written(&self) -> (versions: Vec<Version>)
        ensures
            versions@ == self@.map_values(|entry: QueueView| entry.queue.last_written()),
    {
        let mut versions: Vec<Version> = Vec::new();
        let mut i: usize = 0;
        while i < self.entries.len()
            invariant
                i <= self.entries@.len(),
                versions@.len() == i,
                forall|j: int|
                    0 <= j < i ==> #[trigger] versions@[j] == self@[j].queue.last_written(),
            decreases self.entries@.len() - i,
        {
            let version: Version = queue_get(&self.entries[i].guard).last_written_version();
            versions.push(version);
            i = i + 1;
        }
        assert(versions@ =~= self@.map_values(|entry: QueueView| entry.queue.last_written()));
        versions
    }

    /// Register a transaction as waiting in all of the queues. They are those of variables that it
    /// has read, and no commit above its start has signalled any of them.
    pub(crate) fn add_all(self, signaler: &Signaler, tx: &Transaction) -> (queues: Queues<'a>)
        requires
            forall|i: int|
                0 <= i < self@.len() ==> {
                    &&& (#[trigger] self@[i]).fits()
                    &&& self@[i].queue.last_written() <= tx@.version
                    &&& tx@.log.contains_key(self@[i].id)
                    &&& tx@.log[self@[i].id].read()
                    &&& tx@.log[self@[i].id].svar().queue == self@[i].mutex
                },
        ensures
            queues@.len() == self@.len(),
            forall|i: int|
                0 <= i < self@.len() ==> (#[trigger] self@[i]).becomes(queues@[i])
                    && self@[i].queue.adds(channel_of(*signaler), queues@[i].queue),
    {
        proof {
            use_type_invariant(&self);
        }
        let ghost before = self@;
        let ghost all = self.entries@;
        let mut entries: Vec<QueueEntry<'a>> = Vec::new();
        for entry in it: self.entries
            invariant
                it.seq() == all,
                before == all.map_values(|entry: QueueEntry<'a>| entry.view()),
                forall|i: int| 0 <= i < before.len() ==> (#[trigger] before[i]).fits(),
                entries@.len() == it.index(),
                forall|i: int|
                    0 <= i < entries@.len() ==> before[i].becomes((#[trigger] entries@[i]).view())
                        && before[i].queue.adds(channel_of(*signaler), entries@[i].view().queue),
        {
            assert(before[it.index()] == entry.view());
            let QueueEntry { id, guard } = entry;
            let mut guard = guard;
            let mut queue = queue_get(&guard).clone();
            let ghost copy = queue;
            queue.add(clone_signaler(signaler));
            proof {
                copy.lemma_changes_alike(queue_target(guard), channel_of(*signaler), 0, queue);
            }
            store_queue(&mut guard, queue);
            entries.push(QueueEntry { id, guard });
        }
        proof {
            let after = entries@.map_values(|entry: QueueEntry<'a>| entry.view());
            assert forall|i: int| 0 <= i < before.len() implies (#[trigger] before[i]).becomes(
                after[i],
            ) && before[i].queue.adds(channel_of(*signaler), after[i].queue) by {
                assert(entries@[i].view() == after[i]);
            }
            assert(queue_order(after) =~= queue_order(before));
        }
        Queues { entries }
    }

    /// Signal to everyone who waits in one of the queues that its variable has been updated. They
    /// are those of variables that a transaction has written.
    pub(crate) fn notify_all(self, tx: &Transaction, commit_version: Version) -> (queues: Queues<
        'a,
    >)
        requires
            forall|i: int|
                0 <= i < self@.len() ==> {
                    &&& (#[trigger] self@[i]).fits()
                    &&& tx@.log.contains_key(self@[i].id)
                    &&& tx@.log[self@[i].id].write()
                    &&& tx@.log[self@[i].id].svar().queue == self@[i].mutex
                },
        ensures
            queues@.len() == self@.len(),
            forall|i: int|
                0 <= i < self@.len() ==> (#[trigger] self@[i]).becomes(queues@[i])
                    && self@[i].queue.notifies(commit_version, queues@[i].queue),
    {
        proof {
            use_type_invariant(&self);
        }
        let ghost before = self@;
        let ghost all = self.entries@;
        let mut entries: Vec<QueueEntry<'a>> = Vec::new();
        for entry in it: self.entries
            invariant
                it.seq() == all,
                before == all.map_values(|entry: QueueEntry<'a>| entry.view()),
                forall|i: int| 0 <= i < before.len() ==> (#[trigger] before[i]).fits(),
                entries@.len() == it.index(),
                forall|i: int|
                    0 <= i < entries@.len() ==> before[i].becomes((#[trigger] entries@[i]).view())
                        && before[i].queue.notifies(commit_version, entries@[i].view().queue),
        {
            assert(before[it.index()] == entry.view());
            let QueueEntry { id, guard } = entry;
            let mut guard = guard;
            let mut queue = queue_get(&guard).clone();
            let ghost copy = queue;
            queue.notify_all(commit_version);
            proof {
                copy.lemma_changes_alike(queue_target(guard), 0, commit_version, queue);
            }
            store_queue(&mut guard, queue);
            entries.push(QueueEntry { id, guard });
        }
        proof {
            let after = entries@.map_values(|entry: QueueEntry<'a>| entry.view());
            assert forall|i: int| 0 <= i < before.len() implies (#[trigger] before[i]).becomes(
                after[i],
            ) && before[i].queue.notifies(commit_version, after[i].queue) by {
                assert(entries@[i].view() == after[i]);
            }
            assert(queue_order(after) =~= queue_order(before));
        }
        Queues { entries }
    }
}

} // verus!
