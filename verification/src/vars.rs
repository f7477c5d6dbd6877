//! Variables, and what a transaction and the committed store keep of them.

use crate::channel::{channel_of, clone_signaler, offered, send_signal, Signaler};
use crate::locks::{admitted, held_at, new_lock, new_mutex, queue_states, well_kept};
use crate::transaction::Transaction;
use crate::value::{downcast_value, erase, DynValue};
use crate::version::Version;
use crate::{Stm, StmControl};
use parking_lot::{Mutex, RwLock};
use std::marker::PhantomData;
use std::sync::Arc;
use vstd::prelude::*;

verus! {

/// Unique ID for a `TVar`.
pub type ID = u64;

/// The ID that comes `n` after another. After the last one they start again.
pub open spec fn id_after(id: ID, n: nat) -> int {
    (id + n) % 0x1_0000_0000_0000_0000
}

/// Where IDs come from. It is shared between all `TVar`s.
pub struct IdSource {
    /// The ID of the next `TVar`.
    pub next: ID,
}

impl IdSource {
    /// A source before the first `TVar`.
    pub fn new() -> (ids: IdSource)
        ensures
            ids.next == 0,
    {
        IdSource { next: 0 }
    }

    /// Hand out an ID.
    fn take(&mut self) -> (id: ID)
        ensures
            id == old(self).next,
            final(self).next == id_after(old(self).next, 1),
    {
        let id: ID = self.next;
        self.next = id.wrapping_add(1);
        id
    }
}

/// A versioned value. It will only be accessed through a transaction and a `TVar`.
pub struct VVar {
    pub version: Version,
    pub value: DynValue,
}

impl Clone for VVar {
    fn clone(&self) -> (r: Self)
        ensures
            r == *self,
    {
        VVar { version: self.version, value: self.value.clone() }
    }
}

impl VVar {
    /// A value under a version.
    pub fn new<T: Send + Sync + 'static>(version: Version, value: T) -> (v: VVar)
        ensures
            v.version == version,
            v.value.is_exactly(value),
    {
        VVar { version, value: erase(value) }
    }

    /// Perform a downcast on a var. Returns an `Arc` that tracks when that variable
    /// will go out of scope. This avoids cloning on reads, if the value needs to be
    /// mutated then it can be cloned after being read.
    pub fn downcast<T: Send + Sync + 'static>(&self) -> (r: Arc<T>)
        requires
            self.value.is_a::<T>(),
        ensures
            self.value.is_exactly(*r),
    {
        match downcast_value::<T>(self.value.clone()) {
            Some(s) => s,
            None => {
                proof {
                    let x = choose|x: T| self.value.holds(x);
                    assert(self.value.holds(x));
                }
                vstd::pervasive::unreached()
            },
        }
    }
}

/// The transactions that wait for a `TVar` to change.
pub struct WaitQueue {
    /// Store the last version which was written to avoid race condition where the notification
    /// happens before the waiters would subscribe and then there's no further event that would
    /// unpark them, causing them to wait forever or until they time out.
    ///
    /// This can happen if the order of events on thread A and B are:
    /// 1. `atomically` on A returns `Retry`
    /// 2. `commit` on B updates the versions
    /// 3. `notify` on B finds nobody in the wait queues
    /// 4. `wait` on A adds itself to the wait queues
    ///
    /// By having `notify` update the `last_written_version` we make sure that `wait` sees it. It
    /// is the highest version that was written, whatever the order of the notifications.
    pub last_written_version: Version,
    /// Signalers for tasks waiting for the `TVar` to get an update.
    waiting: Vec<Signaler>,
    /// Highest number of transactions waiting we have encountered so far.
    max_waiting: usize,
}

/// The channels of some signalers, in their order.
pub open spec fn channels_of(signalers: Seq<Signaler>) -> Seq<int> {
    signalers.map_values(|s: Signaler| channel_of(s))
}

/// `signal` has been handed to a channel, whatever the reply.
pub open spec fn was_offered(channel: int, signal: bool) -> bool {
    exists|accepted: bool| offered(channel, signal, accepted)
}

/// The channels whose reply was that they accept, in their order.
pub open spec fn accepting(channels: Seq<int>, replies: Seq<bool>) -> Seq<int>
    decreases replies.len(),
{
    if replies.len() == 0 {
        Seq::empty()
    } else {
        let rest = accepting(channels.drop_last(), replies.drop_last());
        if replies.last() {
            rest.push(channels.last())
        } else {
            rest
        }
    }
}

/// Hand a signal to each of the signalers, in their order, and return the replies.
fn offer_all(signalers: &Vec<Signaler>, signal: bool) -> (replies: Vec<bool>)
    ensures
        replies@.len() == signalers@.len(),
        forall|i: int|
            0 <= i < replies@.len() ==> #[trigger] offered(
                channels_of(signalers@)[i],
                signal,
                replies@[i],
            ),
{
    let mut replies: Vec<bool> = Vec::new();
    let mut i: usize = 0;
    while i < signalers.len()
        invariant
            i <= signalers@.len(),
            replies@.len() == i,
            forall|j: int|
                0 <= j < i ==> #[trigger] offered(channels_of(signalers@)[j], signal, replies@[j]),
        decreases signalers@.len() - i,
    {
        let accepted = send_signal(&signalers[i], signal);
        replies.push(accepted);
        i = i + 1;
    }
    replies
}

/// Keep the signalers whose reply was that they accept, in their order.
pub fn keep_accepting(signalers: Vec<Signaler>, replies: &Vec<bool>) -> (kept: Vec<Signaler>)
    requires
        signalers@.len() == replies@.len(),
    ensures
        channels_of(kept@) == accepting(channels_of(signalers@), replies@),
{
    let mut kept: Vec<Signaler> = Vec::new();
    let ghost all = signalers@;
    let mut i: usize = 0;
    for signaler in it: signalers
        invariant
            it.seq() == all,
            all.len() == replies.len(),
            i == it.index(),
            channels_of(kept@) == accepting(
                channels_of(all).take(i as int),
                replies@.take(i as int),
            ),
    {
        let ghost before = kept@;
        if replies[i] {
            kept.push(signaler);
        }
        proof {
            let n = i as int;
            assert(channels_of(all).take(n + 1).drop_last() == channels_of(all).take(n));
            assert(replies@.take(n + 1).drop_last() == replies@.take(n));
            assert(channels_of(before.push(signaler)) == channels_of(before).push(
                channel_of(signaler),
            ));
        }
        i = i + 1;
    }
    proof {
        assert(channels_of(all).take(all.len() as int) == channels_of(all));
        assert(replies@.take(all.len() as int) == replies@);
    }
    kept
}

impl WaitQueue {
    /// The highest version of a commit that has signalled this queue.
    pub closed spec fn last_written(self) -> Version {
        self.last_written_version
    }

    /// The channels of the waiting transactions, in the order in which they came.
    pub closed spec fn channels(self) -> Seq<int> {
        channels_of(self.waiting@)
    }

    /// The highest number of transactions that were left waiting so far.
    pub closed spec fn record(self) -> nat {
        self.max_waiting as nat
    }

    /// `post` is the queue once the channels that gave these replies have been pruned.
    pub open spec fn pruned_by(self, replies: Seq<bool>, post: WaitQueue) -> bool {
        &&& replies.len() == self.channels().len()
        &&& forall|i: int|
            0 <= i < replies.len() ==> #[trigger] offered(self.channels()[i], false, replies[i])
        &&& post.channels() == accepting(self.channels(), replies)
        &&& post.record() == if post.channels().len() > self.record() {
            post.channels().len()
        } else {
            self.record()
        }
    }

    /// `post` is the queue after a pruning, which happens once the length hits a new record.
    pub open spec fn prunes(self, post: WaitQueue) -> bool {
        &&& post.last_written() == self.last_written()
        &&& if self.channels().len() > self.record() {
            exists|replies: Seq<bool>| self.pruned_by(replies, post)
        } else {
            post.channels() == self.channels() && post.record() == self.record()
        }
    }

    /// `post` is the queue after `channel` has come to wait: at its end, once it has been pruned.
    pub open spec fn adds(self, channel: int, post: WaitQueue) -> bool {
        exists|pruned: WaitQueue|
            {
                &&& #[trigger] self.prunes(pruned)
                &&& post.last_written() == pruned.last_written()
                &&& post.channels() == pruned.channels().push(channel)
                &&& post.record() == pruned.record()
            }
    }

    /// `post` is the queue after a commit has signalled its waiters: nobody waits any more, the
    /// version is that of the commit unless a later one came before it, and `true` has been handed
    /// to everyone who waited.
    pub open spec fn notifies(self, commit_version: Version, post: WaitQueue) -> bool {
        &&& post.last_written() == if commit_version > self.last_written() {
            commit_version
        } else {
            self.last_written()
        }
        &&& post.channels() == Seq::<int>::empty()
        &&& post.record() == self.record()
        &&& forall|i: int|
            0 <= i < self.channels().len() ==> was_offered(#[trigger] self.channels()[i], true)
    }

    /// `post` is the queue after one change: somebody has come to wait, or a commit has signalled it.
    pub open spec fn changes_to(self, post: WaitQueue) -> bool {
        ||| exists|channel: int| self.adds(channel, post)
        ||| exists|commit_version: Version| self.notifies(commit_version, post)
    }

    /// A queue with the same waiters changes in the same way.
    pub(crate) proof fn lemma_changes_alike(
        self,
        other: WaitQueue,
        channel: int,
        commit_version: Version,
        post: WaitQueue,
    )
        requires
            self.last_written() == other.last_written(),
            self.channels() == other.channels(),
            self.record() == other.record(),
        ensures
            self.adds(channel, post) ==> other.adds(channel, post),
            self.notifies(commit_version, post) ==> other.notifies(commit_version, post),
    {
        if self.adds(channel, post) {
            let pruned = choose|pruned: WaitQueue|
                {
                    &&& #[trigger] self.prunes(pruned)
                    &&& post.last_written() == pruned.last_written()
                    &&& post.channels() == pruned.channels().push(channel)
                    &&& post.record() == pruned.record()
                };
            if self.channels().len() > self.record() {
                let replies = choose|replies: Seq<bool>| self.pruned_by(replies, pruned);
                assert(other.pruned_by(replies, pruned));
            }
            assert(other.prunes(pruned));
        }
    }

    /// A queue in which nobody waits.
    pub fn new() -> (queue: Self)
        ensures
            queue.last_written() == 0,
            queue.channels() == Seq::<int>::empty(),
            queue.record() == 1,
    {
        let queue = WaitQueue { last_written_version: 0, waiting: Vec::new(), max_waiting: 1 };
        assert(queue.channels() =~= Seq::<int>::empty());
        queue
    }

    /// The highest version of a commit that has signalled this queue.
    pub fn last_written_version(&self) -> (version: Version)
        ensures
            version == self.last_written(),
    {
        self.last_written_version
    }

    /// Register a transaction as waiting for this `TVar` to be updated.
    pub fn add(&mut self, s: Signaler)
        ensures
            old(self).adds(channel_of(s), *final(self)),
    {
        self.prune();
        let ghost pruned = *self;
        self.waiting.push(s);
        assert(self.channels() =~= pruned.channels().push(channel_of(s)));
    }

    /// Signal to all waiting transactions that this `TVar` has been updated.
    pub fn notify_all(&mut self, commit_version: Version)
        ensures
            old(self).notifies(commit_version, *final(self)),
    {
        // Commits may get here in another order than that of their versions.
        if commit_version > self.last_written_version {
            self.last_written_version = commit_version;
        }
        if self.waiting.is_empty() {
            assert(self.channels() =~= Seq::<int>::empty());
            return;
        }
        let mut waiting: Vec<Signaler> = Vec::new();
        std::mem::swap(&mut waiting, &mut self.waiting);
        assert(self.channels() =~= Seq::<int>::empty());

        let replies = offer_all(&waiting, true);
        assert forall|i: int| 0 <= i < old(self).channels().len() implies was_offered(
            #[trigger] old(self).channels()[i],
            true,
        ) by {
            assert(offered(channels_of(waiting@)[i], true, replies@[i]));
        }
    }

    /// Whenever we see the length of the waiting queue hit a new record,
    /// remove any waiting signalers that already had their receiver closed,
    /// which means some other `TVar` they subscribed to has been updated.
    ///
    /// This is to avoid memory leaks in the wait queue of a `TVar` which
    /// is frequently read but never written to.
    fn prune(&mut self)
        ensures
            old(self).prunes(*final(self)),
    {
        if self.waiting.len() > self.max_waiting {
            let mut waiting: Vec<Signaler> = Vec::new();
            std::mem::swap(&mut waiting, &mut self.waiting);
            let replies = offer_all(&waiting, false);
            self.waiting = keep_accepting(waiting, &replies);
            if self.waiting.len() > self.max_waiting {
                self.max_waiting = self.waiting.len();
            }
            assert(old(self).pruned_by(replies@, *self));
        }
    }
}

/// What contracts see of a queue, of a logged variable and of a handle is what they hold.
proof fn views_leave_nothing_out<T: 'static>(queue: WaitQueue, lvar: LVar, tvar: TVar<T>)
    ensures
        queue.last_written() == queue.last_written_version,
        queue.record() == queue.max_waiting,
        queue.channels().len() == queue.waiting@.len(),
        forall|i: int|
            0 <= i < queue.waiting@.len() ==> #[trigger] queue.channels()[i] == channel_of(
                queue.waiting@[i],
            ),
        lvar.svar() == *lvar.svar,
        lvar.vvar() == lvar.vvar,
        lvar.read() == lvar.read,
        lvar.write() == lvar.write,
        tvar.id() == tvar.id,
        tvar.svar() == *tvar.svar,
{
}

impl Clone for WaitQueue {
    fn clone(&self) -> (r: Self)
        ensures
            r.last_written() == self.last_written(),
            r.channels() == self.channels(),
            r.record() == self.record(),
    {
        let mut waiting: Vec<Signaler> = Vec::new();
        let mut i: usize = 0;
        while i < self.waiting.len()
            invariant
                i <= self.waiting@.len(),
                waiting@.len() == i,
                forall|j: int|
                    0 <= j < i ==> channel_of(#[trigger] waiting@[j]) == channel_of(
                        self.waiting@[j],
                    ),
            decreases self.waiting@.len() - i,
        {
            waiting.push(clone_signaler(&self.waiting[i]));
            i = i + 1;
        }
        assert(channels_of(waiting@) =~= channels_of(self.waiting@));
        WaitQueue {
            last_written_version: self.last_written_version,
            waiting,
            max_waiting: self.max_waiting,
        }
    }
}

impl Default for WaitQueue {
    fn default() -> (queue: Self)
        ensures
            queue.last_written() == 0,
            queue.channels() == Seq::<int>::empty(),
            queue.record() == 1,
    {
        Self::new()
    }
}

/// Sync variable, hold the committed value and the waiting threads.
pub struct SVar {
    pub vvar: RwLock<VVar>,
    pub queue: Mutex<WaitQueue>,
}

impl SVar {
    /// The first thing that the variable holds is `value`, under version 0, and at first nobody
    /// waits for it.
    pub open spec fn starts_with<T: 'static>(self, value: T) -> bool {
        &&& exists|v: VVar| #[trigger]
            held_at(self.vvar, 0, v) && v.version == 0 && v.value.is_exactly(value)
        &&& well_kept(queue_states(self.queue))
        &&& queue_states(self.queue).contains_key(0)
        &&& queue_states(self.queue)[0].last_written() == 0
        &&& queue_states(self.queue)[0].channels() == Seq::<int>::empty()
        &&& queue_states(self.queue)[0].record() == 1
    }
}

/// A variable in the transaction log that remembers if it has been read and/or written to.
pub struct LVar {
    // Hold on to the variable that we need to commit to.
    pub(crate) svar: Arc<SVar>,
    // Hold on to the value as it was read or written for MVCC comparison.
    pub(crate) vvar: VVar,
    /// Remember reads; these are the variables we need to watch if we retry.
    pub(crate) read: bool,
    /// Remember writes; these are the variables that need to be stored at the
    /// end of the transaction, but they don't need to be watched if we retry.
    pub(crate) write: bool,
}

impl LVar {
    /// The value is one that the variable can hold.
    #[verifier::type_invariant]
    pub open(crate) spec fn fits(self) -> bool {
        admitted(self.svar.vvar).contains(self.vvar.value)
    }

    /// The variable to commit to.
    pub open(crate) spec fn svar(self) -> SVar {
        *self.svar
    }

    /// The value as it was read or written.
    pub open(crate) spec fn vvar(self) -> VVar {
        self.vvar
    }

    /// The variable has been read from the committed store.
    pub open(crate) spec fn read(self) -> bool {
        self.read
    }

    /// The variable has been written.
    pub open(crate) spec fn write(self) -> bool {
        self.write
    }
}

impl LVar {
    /// The variable has been written since it was logged, where `observed` is its committed
    /// version.
    pub fn outdated_by(&self, observed: Version) -> (r: bool)
        ensures
            r == (observed > self.vvar().version),
    {
        observed > self.vvar.version
    }
}

impl Clone for LVar {
    fn clone(&self) -> (r: Self)
        ensures
            r == *self,
    {
        proof {
            use_type_invariant(self);
        }
        LVar {
            svar: self.svar.clone(),
            vvar: self.vvar.clone(),
            read: self.read,
            write: self.write,
        }
    }
}

/// `TVar` is our handle to a variable, but reading and writing go through a transaction.
/// It also tracks which threads are waiting on it.
pub struct TVar<T: 'static> {
    pub(crate) id: ID,
    pub(crate) svar: Arc<SVar>,
    pub(crate) phantom: PhantomData<T>,
}

impl<T: 'static> TVar<T> {
    /// The variable holds values of type `T` and no others.
    #[verifier::type_invariant]
    pub open(crate) spec fn typed(self) -> bool {
        forall|d: DynValue| #[trigger] admitted(self.svar.vvar).contains(d) <==> d.is_a::<T>()
    }

    /// The ID of the variable.
    pub open(crate) spec fn spec_id(&self) -> ID {
        self.id
    }

    /// The ID of the variable.
    #[verifier::when_used_as_spec(spec_id)]
    pub fn id(&self) -> (id: ID)
        ensures
            id == self.spec_id(),
    {
        self.id
    }

    /// The committed value and the waiting threads.
    pub open(crate) spec fn svar(self) -> SVar {
        *self.svar
    }
}

impl<T: Send + Sync + 'static> TVar<T> {
    /// Create a new `TVar`. The initial version is 0, so that if a
    /// `TVar` is created in the middle of a transaction it will
    /// not cause any MVCC conflict during the commit.
    pub fn new(ids: &mut IdSource, value: T) -> (tvar: TVar<T>)
        ensures
            tvar.id() == old(ids).next,
            final(ids).next == id_after(old(ids).next, 1),
            tvar.svar().starts_with(value),
    {
        let first = VVar::new(0, value);
        let ghost v = first;
        let svar = SVar {
            vvar: new_lock::<T>(first),
            queue: new_mutex(WaitQueue::default()),
        };
        assert(held_at(svar.vvar, 0, v));
        TVar { id: ids.take(), svar: Arc::new(svar), phantom: PhantomData }
    }
}

impl<T: Default + Send + Sync + 'static> TVar<T> {
    /// Create a new `TVar` that holds the default value of its type.
    pub fn default(ids: &mut IdSource) -> (tvar: TVar<T>)
        ensures
            tvar.id() == old(ids).next,
            final(ids).next == id_after(old(ids).next, 1),
            exists|value: T| #[trigger]
                call_ensures(T::default, (), value) && tvar.svar().starts_with(value),
    {
        TVar::new(ids, T::default())
    }
}

impl<T: Send + Sync + 'static> TVar<T> {
    /// Read the value of the `TVar` as a clone, for subsequent modification.
    pub fn read_clone(&self, tx: &mut Transaction) -> (r: Stm<T>) where T: Clone
        requires
            old(tx)@.coherent(*self),
        ensures
            match r {
                Ok(value) => old(tx)@.reads_clone(*self, final(tx)@, value),
                Err(e) => old(tx)@.reads(*self, final(tx)@, Err(e)),
            },
    {
        match tx.read(self) {
            Ok(x) => Ok((*x).clone()),
            Err(e) => Err(e),
        }
    }

    /// Read the value of the `TVar`.
    pub fn read(&self, tx: &mut Transaction) -> (r: Stm<Arc<T>>)
        requires
            old(tx)@.coherent(*self),
        ensures
            old(tx)@.reads(*self, final(tx)@, r),
    {
        tx.read(self)
    }

    /// Replace the value of the `TVar`.
    pub fn write(&self, tx: &mut Transaction, value: T) -> (r: Stm<()>)
        ensures
            r == Ok::<(), StmControl>(()),
            old(tx)@.writes(*self, value, final(tx)@),
    {
        tx.write(self, value)
    }

    /// Apply an update on the value of the `TVar`.
    pub fn update<F>(&self, tx: &mut Transaction, f: F) -> (r: Stm<()>) where
        F: FnOnce(T) -> T,
        T: Clone,

        requires
            old(tx)@.coherent(*self),
            forall|x: T, c: T|
                #[trigger] old(tx)@.may_read(*self, x) && #[trigger] cloned(x, c) ==> f.requires(
                    (c,),
                ),
        ensures
            old(tx)@.updates(*self, f, final(tx)@, r),
    {
        let v = match self.read(tx) {
            Ok(v) => v,
            Err(e) => {
                return Err(e);
            },
        };
        let ghost mid = tx@;
        assert(old(tx)@.reads(*self, mid, Ok(Arc::new(*v))));
        assert(old(tx)@.may_read(*self, *v));
        let c = (*v).clone();
        assert(cloned(*v, c));
        let w = f(c);
        self.write(tx, w)
    }

    /// Apply an update on the value of the `TVar` and return a value.
    pub fn modify<F, R>(&self, tx: &mut Transaction, f: F) -> (r: Stm<R>) where
        F: FnOnce(T) -> (T, R),
        T: Clone,

        requires
            old(tx)@.coherent(*self),
            forall|x: T, c: T|
                #[trigger] old(tx)@.may_read(*self, x) && #[trigger] cloned(x, c) ==> f.requires(
                    (c,),
                ),
        ensures
            old(tx)@.modifies(*self, f, final(tx)@, r),
    {
        let v = match self.read(tx) {
            Ok(v) => v,
            Err(e) => {
                return Err(e);
            },
        };
        let ghost mid = tx@;
        assert(old(tx)@.reads(*self, mid, Ok(Arc::new(*v))));
        assert(old(tx)@.may_read(*self, *v));
        let c = (*v).clone();
        assert(cloned(*v, c));
        let (w, result) = f(c);
        match self.write(tx, w) {
            Ok(()) => Ok(result),
            Err(e) => Err(e),
        }
    }

    /// Apply an update on the value of the `TVar` and return a value, where the update may itself go
    /// on with the transaction, by accessing other variables.
    pub fn modify_with<F, R>(&self, tx: &mut Transaction, f: F) -> (r: Stm<R>) where
        F: FnOnce(&mut Transaction, T) -> (T, R),
        T: Clone,

        requires
            old(tx)@.coherent(*self),
            forall|t: &mut Transaction, c: T|
                old(tx)@.reads_clone(*self, (*t)@, c) ==> #[trigger] f.requires((t, c)),
        ensures
            match r {
                Ok(result) => exists|t: &mut Transaction, c: T, out: (T, R)|
                    {
                        &&& #[trigger] f.ensures((t, c), out)
                        &&& old(tx)@.reads_clone(*self, (*t)@, c)
                        &&& (*final(t))@.writes(*self, out.0, final(tx)@)
                        &&& result == out.1
                    },
                Err(e) => old(tx)@.reads(*self, final(tx)@, Err(e)),
            },
    {
        let c = match self.read_clone(tx) {
            Ok(c) => c,
            Err(e) => {
                return Err(e);
            },
        };
        let (w, result) = f(tx, c);
        match self.write(tx, w) {
            Ok(()) => Ok(result),
            Err(e) => Err(e),
        }
    }

    /// Replace the value of the `TVar` and return the previous value.
    pub fn replace(&self, tx: &mut Transaction, value: T) -> (r: Stm<Arc<T>>)
        requires
            old(tx)@.coherent(*self),
        ensures
            old(tx)@.replaces(*self, value, final(tx)@, r),
    {
        let v = match self.read(tx) {
            Ok(v) => v,
            Err(e) => {
                return Err(e);
            },
        };
        match self.write(tx, value) {
            Ok(()) => Ok(v),
            Err(e) => Err(e),
        }
    }
}

impl<T: 'static> Clone for TVar<T> {
    fn clone(&self) -> (r: Self)
        ensures
            r == *self,
    {
        proof {
            use_type_invariant(self);
        }
        TVar { id: self.id, svar: self.svar.clone(), phantom: PhantomData }
    }
}

} // verus!
