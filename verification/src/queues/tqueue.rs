//! A queue of two vectors.

use crate::laws::{commit_on, is_newer, left_by, next_transaction_reads_what_was_left};
use crate::locks::{held_at, taken};
use crate::ops::retry;
use crate::queues::TQueueLike;
use crate::transaction::{Transaction, TransactionView};
use crate::value::is_data;
use crate::vars::{id_after, IdSource, TVar, VVar, ID};
use crate::version::Version;
use crate::{Stm, StmControl};
use std::sync::Arc;
use vstd::prelude::*;

verus! {

/// Unbounded queue using two vectors.
///
/// This implementation writes to one vector and reads from the other
/// until the reads vector becomes empty and the two need to be swapped.
/// Again reads don't block writes most of the time. It has an amortised
/// cost of O(1).
pub struct TQueue<T: 'static> {
    read: TVar<Vec<T>>,
    write: TVar<Vec<T>>,
}

/// A clone of an item is the item again.
pub open spec fn clones_faithfully<T: Clone>() -> bool {
    forall|a: T, b: T| cloned(a, b) ==> a == b
}

/// The items of a queue come out as they went in: a clone of an item is the item again, and the
/// vectors that hold them are plain data.
pub open spec fn keeps_items<T: Clone>() -> bool {
    clones_faithfully::<T>() && is_data::<Vec<T>>()
}

/// The items of a queue, the head first: those to read from the last to the first, then those
/// that were written.
pub open spec fn items_of<T>(to_read: Seq<T>, written: Seq<T>) -> Seq<T> {
    to_read.reverse() + written
}

/// The items of a vector in the opposite order.
fn reversed<T>(items: Vec<T>) -> (r: Vec<T>)
    ensures
        r@ == items@.reverse(),
{
    let mut items = items;
    let ghost all = items@;
    let mut r: Vec<T> = Vec::new();
    while items.len() > 0
        invariant
            items@.len() <= all.len(),
            items@ == all.take(items@.len() as int),
            r@ == all.skip(items@.len() as int).reverse(),
        decreases items@.len(),
    {
        let ghost n = items@.len();
        match items.pop() {
            Some(item) => {
                r.push(item);
                assert(r@ =~= all.skip(n - 1).reverse());
            },
            None => {},
        }
    }
    assert(all.skip(0) =~= all);
    r
}

impl<T: 'static> TQueue<T> {
    /// The two vectors are two variables.
    #[verifier::type_invariant]
    spec fn two_variables(self) -> bool {
        self.read.id() != self.write.id()
    }

    /// The items to read, the next one last.
    pub closed spec fn front(self) -> TVar<Vec<T>> {
        self.read
    }

    /// The items that were written, the last one last.
    pub closed spec fn back(self) -> TVar<Vec<T>> {
        self.write
    }
}

impl<T: Send + Sync + Clone + 'static> TQueue<T> {
    /// Create an empty `TQueue`.
    pub fn new(ids: &mut IdSource) -> (queue: TQueue<T>)
        ensures
            queue.front().id() == old(ids).next,
            queue.back().id() == id_after(old(ids).next, 1),
            final(ids).next == id_after(old(ids).next, 2),
            starts_empty(queue.front()),
            starts_empty(queue.back()),
    {
        let read = TVar::new(ids, Vec::new());
        let write = TVar::new(ids, Vec::new());
        TQueue { read, write }
    }

    /// Create an empty `TQueue`.
    pub fn default(ids: &mut IdSource) -> (queue: TQueue<T>)
        ensures
            queue.front().id() == old(ids).next,
            queue.back().id() == id_after(old(ids).next, 1),
            final(ids).next == id_after(old(ids).next, 2),
            starts_empty(queue.front()),
            starts_empty(queue.back()),
    {
        TQueue::new(ids)
    }
}

/// What contracts see of a queue is what it holds.
proof fn views_leave_nothing_out<T: 'static>(queue: TQueue<T>)
    ensures
        queue.front() == queue.read,
        queue.back() == queue.write,
{
}

impl<T: 'static> Clone for TQueue<T> {
    fn clone(&self) -> (r: Self)
        ensures
            r == *self,
    {
        proof {
            use_type_invariant(self);
        }
        TQueue { read: self.read.clone(), write: self.write.clone() }
    }
}

/// The first thing that a variable holds is an empty vector.
pub open spec fn starts_empty<T: 'static>(tvar: TVar<Vec<T>>) -> bool {
    exists|v: Vec<T>| #[trigger] tvar.svar().starts_with(v) && v@.len() == 0
}

/// A push: the vector that is written to gets the value at its end.
pub open spec fn enqueues<T: Clone + 'static>(
    queue: TQueue<T>,
    pre: TransactionView,
    value: T,
    post: TransactionView,
    r: Stm<()>,
) -> bool {
    match r {
        Ok(()) => exists|mid: TransactionView, written: Vec<T>, more: Vec<T>|
            {
                &&& #[trigger] pre.reads_clone(queue.back(), mid, written)
                &&& #[trigger] mid.writes(queue.back(), more, post)
                &&& more@ == written@.push(value)
            },
        Err(e) => pre.reads(queue.back(), post, Err(e)),
    }
}

/// A pop from the vector that is read from.
pub open spec fn dequeues_front<T: Clone + 'static>(
    queue: TQueue<T>,
    pre: TransactionView,
    post: TransactionView,
    value: T,
) -> bool {
    exists|mid: TransactionView, to_read: Vec<T>, rest: Vec<T>|
        {
            &&& #[trigger] pre.reads_clone(queue.front(), mid, to_read)
            &&& #[trigger] mid.writes(queue.front(), rest, post)
            &&& to_read@ == rest@.push(value)
        }
}

/// A pop where the vector that is read from is empty: the other one takes its place, the other
/// way round.
pub open spec fn dequeues_back<T: Clone + 'static>(
    queue: TQueue<T>,
    pre: TransactionView,
    post: TransactionView,
    value: T,
) -> bool {
    exists|
        mid: TransactionView,
        to_read: Vec<T>,
        mid2: TransactionView,
        written: Vec<T>,
        mid3: TransactionView,
        rest: Vec<T>,
        none: Vec<T>,
    |
        {
            &&& #[trigger] pre.reads_clone(queue.front(), mid, to_read)
            &&& to_read@.len() == 0
            &&& #[trigger] mid.reads_clone(queue.back(), mid2, written)
            &&& #[trigger] mid2.writes(queue.front(), rest, mid3)
            &&& rest@.push(value) == written@.reverse()
            &&& #[trigger] mid3.writes(queue.back(), none, post)
            &&& none@.len() == 0
        }
}

/// Both vectors are found empty.
pub open spec fn finds_empty<T: Clone + 'static>(
    queue: TQueue<T>,
    pre: TransactionView,
    post: TransactionView,
) -> bool {
    exists|mid: TransactionView, to_read: Vec<T>, written: Vec<T>|
        {
            &&& #[trigger] pre.reads_clone(queue.front(), mid, to_read)
            &&& to_read@.len() == 0
            &&& #[trigger] mid.reads_clone(queue.back(), post, written)
            &&& written@.len() == 0
        }
}

/// One of the vectors could not be read, because it has changed.
pub open spec fn fails<T: Clone + 'static>(
    queue: TQueue<T>,
    pre: TransactionView,
    post: TransactionView,
) -> bool {
    ||| pre.reads(queue.front(), post, Err(StmControl::Failure))
    ||| exists|mid: TransactionView, to_read: Vec<T>|
        {
            &&& #[trigger] pre.reads_clone(queue.front(), mid, to_read)
            &&& to_read@.len() == 0
            &&& mid.reads(queue.back(), post, Err(StmControl::Failure))
        }
}

/// A test for emptiness: the vector that is written to is looked at where the other one is empty.
pub open spec fn tests_empty<T: 'static>(
    queue: TQueue<T>,
    pre: TransactionView,
    post: TransactionView,
    r: Stm<bool>,
) -> bool {
    ||| r matches Err(e) && pre.reads(queue.front(), post, Err(e))
    ||| exists|mid: TransactionView, to_read: Arc<Vec<T>>|
        {
            &&& #[trigger] pre.reads(queue.front(), mid, Ok(to_read))
            &&& if to_read@.len() > 0 {
                r == Ok::<bool, StmControl>(false) && post == mid
            } else {
                match r {
                    Ok(empty) => exists|written: Arc<Vec<T>>| #[trigger]
                        mid.reads(queue.back(), post, Ok(written)) && empty == (written@.len()
                            == 0),
                    Err(e) => mid.reads(queue.back(), post, Err(e)),
                }
            }
        }
}

/// These items may be found in a queue, if they come out as they went in: one vector may be read as
/// the first of them, the other way round, and one as the rest.
pub open spec fn may_find<T: Clone + 'static>(
    queue: TQueue<T>,
    tx: TransactionView,
    items: Seq<T>,
) -> bool {
    keeps_items::<T>() && exists|to_read: Vec<T>, written: Vec<T>|
        {
            &&& #[trigger] tx.may_read(queue.front(), to_read)
            &&& #[trigger] tx.may_read(queue.back(), written)
            &&& items == items_of(to_read@, written@)
        }
}

/// A clone of a vector has the same items.
proof fn lemma_cloned_items<T: Clone>(a: Vec<T>, b: Vec<T>)
    requires
        clones_faithfully::<T>(),
        cloned(a, b),
    ensures
        a@ == b@,
{
    if a != b {
        assert(call_ensures(Vec::<T>::clone, (&a,), b));
        assert(a@.len() == b@.len());
        assert forall|i: int| 0 <= i < a@.len() implies a@[i] == b@[i] by {
            assert(cloned(a@[i], b@[i]));
        }
        assert(a@ =~= b@);
    }
}

/// What a read may give depends on the start of the transaction and on what the log has of the
/// variable.
proof fn lemma_may_read_transfers<T>(
    pre: TransactionView,
    post: TransactionView,
    tvar: TVar<T>,
    x: T,
)
    requires
        pre.version == post.version,
        pre.log.contains_key(tvar.id()) == post.log.contains_key(tvar.id()),
        pre.log.contains_key(tvar.id()) ==> pre.log[tvar.id()] == post.log[tvar.id()],
        pre.may_read(tvar, x),
    ensures
        post.may_read(tvar, x),
{
    let after = choose|after: TransactionView| #[trigger]
        pre.reads(tvar, after, Ok(Arc::new(x)));
    if post.log.contains_key(tvar.id()) {
        assert(post.reads(tvar, post, Ok(Arc::new(x))));
    } else {
        let (n, v) = choose|n: nat, v: VVar|
            {
                &&& taken(tvar.svar().vvar, n)
                &&& #[trigger] held_at(tvar.svar().vvar, n, v)
                &&& pre.observes(tvar, v, after, Ok(Arc::new(x)))
            };
        let then = TransactionView {
            log: post.log.insert(tvar.id(), after.log[tvar.id()]),
            ..post
        };
        assert(held_at(tvar.svar().vvar, n, v));
        assert(post.observes(tvar, v, then, Ok(Arc::new(x))));
        assert(post.reads(tvar, then, Ok(Arc::new(x))));
    }
}

/// After a write, a read gives what was written.
proof fn lemma_may_read_written<T: 'static>(
    pre: TransactionView,
    tvar: TVar<T>,
    value: T,
    post: TransactionView,
    x: T,
)
    requires
        is_data::<T>(),
        pre.writes(tvar, value, post),
        post.may_read(tvar, x),
    ensures
        x == value,
{
    let after = choose|after: TransactionView| #[trigger]
        post.reads(tvar, after, Ok(Arc::new(x)));
}

/// A read may give what it does give, and the next read gives it again.
proof fn lemma_may_read_again<T>(
    pre: TransactionView,
    tvar: TVar<T>,
    value: T,
    post: TransactionView,
    x: T,
)
    requires
        is_data::<T>(),
        pre.reads(tvar, post, Ok(Arc::new(value))),
    ensures
        pre.may_read(tvar, value),
        post.may_read(tvar, x) ==> x == value,
{
    if post.may_read(tvar, x) {
        let after = choose|after: TransactionView| #[trigger]
            post.reads(tvar, after, Ok(Arc::new(x)));
    }
}

/// A push adds its value at the end of the queue.
pub proof fn push_adds_at_the_end<T: Clone + 'static>(
    queue: TQueue<T>,
    pre: TransactionView,
    value: T,
    post: TransactionView,
    items: Seq<T>,
)
    requires
        queue.front().id() != queue.back().id(),
        enqueues(queue, pre, value, post, Ok(())),
        may_find(queue, post, items),
    ensures
        items.len() > 0,
        items.last() == value,
        may_find(queue, pre, items.drop_last()),
{
    let (mid, written, more) = choose|mid: TransactionView, written: Vec<T>, more: Vec<T>|
        {
            &&& #[trigger] pre.reads_clone(queue.back(), mid, written)
            &&& #[trigger] mid.writes(queue.back(), more, post)
            &&& more@ == written@.push(value)
        };
    let x = choose|x: Vec<T>| #[trigger]
        pre.reads(queue.back(), mid, Ok(Arc::new(x))) && cloned(x, written);
    let (front, back) = choose|front: Vec<T>, back: Vec<T>|
        {
            &&& #[trigger] post.may_read(queue.front(), front)
            &&& #[trigger] post.may_read(queue.back(), back)
            &&& items == items_of(front@, back@)
        };
    lemma_cloned_items(x, written);
    lemma_may_read_written(mid, queue.back(), more, post, back);
    lemma_may_read_again(pre, queue.back(), x, mid, x);
    lemma_may_read_transfers(post, pre, queue.front(), front);
    assert(items.drop_last() =~= items_of(front@, x@));
}

/// A pop takes its value from the head of the queue.
pub proof fn pop_takes_the_head<T: Clone + 'static>(
    queue: TQueue<T>,
    pre: TransactionView,
    post: TransactionView,
    value: T,
    items: Seq<T>,
)
    requires
        queue.front().id() != queue.back().id(),
        dequeues_front(queue, pre, post, value) || dequeues_back(queue, pre, post, value),
        may_find(queue, post, items),
    ensures
        may_find(queue, pre, seq![value] + items),
{
    let (front, back) = choose|front: Vec<T>, back: Vec<T>|
        {
            &&& #[trigger] post.may_read(queue.front(), front)
            &&& #[trigger] post.may_read(queue.back(), back)
            &&& items == items_of(front@, back@)
        };
    if dequeues_front(queue, pre, post, value) {
        let (mid, to_read, rest) = choose|mid: TransactionView, to_read: Vec<T>, rest: Vec<T>|
            {
                &&& #[trigger] pre.reads_clone(queue.front(), mid, to_read)
                &&& #[trigger] mid.writes(queue.front(), rest, post)
                &&& to_read@ == rest@.push(value)
            };
        let x = choose|x: Vec<T>| #[trigger]
            pre.reads(queue.front(), mid, Ok(Arc::new(x))) && cloned(x, to_read);
        lemma_cloned_items(x, to_read);
        lemma_may_read_written(mid, queue.front(), rest, post, front);
        lemma_may_read_again(pre, queue.front(), x, mid, x);
        lemma_may_read_transfers(post, pre, queue.back(), back);
        assert(seq![value] + items =~= items_of(x@, back@));
    } else {
        let (mid, to_read, mid2, written, mid3, rest, none) = choose|
            mid: TransactionView,
            to_read: Vec<T>,
            mid2: TransactionView,
            written: Vec<T>,
            mid3: TransactionView,
            rest: Vec<T>,
            none: Vec<T>,
        |
            {
                &&& #[trigger] pre.reads_clone(queue.front(), mid, to_read)
                &&& to_read@.len() == 0
                &&& #[trigger] mid.reads_clone(queue.back(), mid2, written)
                &&& #[trigger] mid2.writes(queue.front(), rest, mid3)
                &&& rest@.push(value) == written@.reverse()
                &&& #[trigger] mid3.writes(queue.back(), none, post)
                &&& none@.len() == 0
            };
        let x = choose|x: Vec<T>| #[trigger]
            pre.reads(queue.front(), mid, Ok(Arc::new(x))) && cloned(x, to_read);
        let y = choose|y: Vec<T>| #[trigger]
            mid.reads(queue.back(), mid2, Ok(Arc::new(y))) && cloned(y, written);
        lemma_cloned_items(x, to_read);
        lemma_cloned_items(y, written);
        lemma_may_read_again(pre, queue.front(), x, mid, x);
        lemma_may_read_again(mid, queue.back(), y, mid2, y);
        lemma_may_read_transfers(mid, pre, queue.back(), y);
        lemma_may_read_transfers(post, mid3, queue.front(), front);
        lemma_may_read_written(mid2, queue.front(), rest, mid3, front);
        lemma_may_read_written(mid3, queue.back(), none, post, back);
        assert(rest@.push(value).reverse() =~= written@);
        assert(seq![value] + items =~= items_of(x@, y@));
    }
}

/// A queue that is found empty has no items.
pub proof fn empty_has_no_items<T: Clone + 'static>(
    queue: TQueue<T>,
    pre: TransactionView,
    post: TransactionView,
    items: Seq<T>,
)
    requires
        queue.front().id() != queue.back().id(),
        finds_empty(queue, pre, post),
        may_find(queue, post, items),
    ensures
        items.len() == 0,
{
    let (front, back) = choose|front: Vec<T>, back: Vec<T>|
        {
            &&& #[trigger] post.may_read(queue.front(), front)
            &&& #[trigger] post.may_read(queue.back(), back)
            &&& items == items_of(front@, back@)
        };
    let (mid, to_read, written) = choose|mid: TransactionView, to_read: Vec<T>, written: Vec<T>|
        {
            &&& #[trigger] pre.reads_clone(queue.front(), mid, to_read)
            &&& to_read@.len() == 0
            &&& #[trigger] mid.reads_clone(queue.back(), post, written)
            &&& written@.len() == 0
        };
    let x = choose|x: Vec<T>| #[trigger]
        pre.reads(queue.front(), mid, Ok(Arc::new(x))) && cloned(x, to_read);
    let y = choose|y: Vec<T>| #[trigger]
        mid.reads(queue.back(), post, Ok(Arc::new(y))) && cloned(y, written);
    lemma_cloned_items(x, to_read);
    lemma_cloned_items(y, written);
    lemma_may_read_transfers(post, mid, queue.front(), front);
    lemma_may_read_again(pre, queue.front(), x, mid, front);
    lemma_may_read_again(mid, queue.back(), y, post, back);
}

/// A push and a pop from a vector that is not empty do not get in each other's way: they access
/// different variables.
pub proof fn push_and_pop_touch_different_variables<T: Clone + 'static>(
    queue: TQueue<T>,
    pre: TransactionView,
    value: T,
    post: TransactionView,
    id: ID,
)
    requires
        queue.front().id() != queue.back().id(),
        pre.log.contains_key(id) != post.log.contains_key(id) || pre.log[id] != post.log[id],
    ensures
        enqueues(queue, pre, value, post, Ok(())) ==> id == queue.back().id(),
        dequeues_front(queue, pre, post, value) ==> id == queue.front().id(),
{
}

/// One call that has been made on a queue, with its value or its result.
pub enum Step<T> {
    Push(T),
    Pop(T),
    Test(bool),
}

/// A vector is read as `x`, and where it has not been accessed before, `x` is what the store has.
pub open spec fn takes_out<T: Clone + 'static>(
    tvar: TVar<Vec<T>>,
    stored: Seq<T>,
    pre: TransactionView,
    post: TransactionView,
    x: Vec<T>,
) -> bool {
    pre.reads_clone(tvar, post, x) && (!pre.log.contains_key(tvar.id()) ==> x@ == stored)
}

/// The items of the two vectors of a queue.
pub struct Stored<T> {
    pub front: Seq<T>,
    pub back: Seq<T>,
}

/// A call takes a transaction from `pre` to `post`, where the store has these vectors.
pub open spec fn steps<T: Clone + 'static>(
    queue: TQueue<T>,
    stored: Stored<T>,
    step: Step<T>,
    pre: TransactionView,
    post: TransactionView,
) -> bool {
    match step {
        Step::Push(value) => exists|mid: TransactionView, written: Vec<T>, more: Vec<T>|
            {
                &&& #[trigger] takes_out(queue.back(), stored.back, pre, mid, written)
                &&& #[trigger] mid.writes(queue.back(), more, post)
                &&& more@ == written@.push(value)
            },
        Step::Pop(value) => {
            ||| exists|mid: TransactionView, to_read: Vec<T>, rest: Vec<T>|
                {
                    &&& #[trigger] takes_out(queue.front(), stored.front, pre, mid, to_read)
                    &&& #[trigger] mid.writes(queue.front(), rest, post)
                    &&& to_read@ == rest@.push(value)
                }
            ||| exists|
                mid: TransactionView,
                to_read: Vec<T>,
                mid2: TransactionView,
                written: Vec<T>,
                mid3: TransactionView,
                rest: Vec<T>,
                none: Vec<T>,
            |
                {
                    &&& #[trigger] takes_out(queue.front(), stored.front, pre, mid, to_read)
                    &&& to_read@.len() == 0
                    &&& #[trigger] takes_out(queue.back(), stored.back, mid, mid2, written)
                    &&& #[trigger] mid2.writes(queue.front(), rest, mid3)
                    &&& rest@.push(value) == written@.reverse()
                    &&& #[trigger] mid3.writes(queue.back(), none, post)
                    &&& none@.len() == 0
                }
        },
        Step::Test(empty) => exists|mid: TransactionView, to_read: Vec<T>|
            {
                &&& #[trigger] takes_out(queue.front(), stored.front, pre, mid, to_read)
                &&& if to_read@.len() > 0 {
                    !empty && post == mid
                } else {
                    exists|written: Vec<T>| #[trigger]
                        takes_out(queue.back(), stored.back, mid, post, written) && empty == (
                        written@.len() == 0)
                }
            },
    }
}

/// Every call that succeeds is such a step, whatever the store has.
pub proof fn calls_are_steps<T: Clone + 'static>(
    queue: TQueue<T>,
    pre: TransactionView,
    value: T,
    empty: bool,
    post: TransactionView,
)
    requires
        queue.front().id() != queue.back().id(),
        keeps_items::<T>(),
    ensures
        enqueues(queue, pre, value, post, Ok(())) ==> exists|stored: Stored<T>|
            steps(queue, stored, Step::Push(value), pre, post),
        dequeues_front(queue, pre, post, value) || dequeues_back(queue, pre, post, value)
            ==> exists|stored: Stored<T>| steps(queue, stored, Step::Pop(value), pre, post),
        tests_empty(queue, pre, post, Ok(empty)) ==> exists|stored: Stored<T>|
            steps(queue, stored, Step::Test(empty), pre, post),
{
    if enqueues(queue, pre, value, post, Ok(())) {
        let (mid, written, more) = choose|mid: TransactionView, written: Vec<T>, more: Vec<T>|
            {
                &&& #[trigger] pre.reads_clone(queue.back(), mid, written)
                &&& #[trigger] mid.writes(queue.back(), more, post)
                &&& more@ == written@.push(value)
            };
        let stored = Stored { front: Seq::empty(), back: written@ };
        assert(takes_out(queue.back(), stored.back, pre, mid, written));
        assert(steps(queue, stored, Step::Push(value), pre, post));
    }
    if dequeues_front(queue, pre, post, value) {
        let (mid, to_read, rest) = choose|mid: TransactionView, to_read: Vec<T>, rest: Vec<T>|
            {
                &&& #[trigger] pre.reads_clone(queue.front(), mid, to_read)
                &&& #[trigger] mid.writes(queue.front(), rest, post)
                &&& to_read@ == rest@.push(value)
            };
        let stored = Stored { front: to_read@, back: Seq::empty() };
        assert(takes_out(queue.front(), stored.front, pre, mid, to_read));
        assert(steps(queue, stored, Step::Pop(value), pre, post));
    }
    if dequeues_back(queue, pre, post, value) {
        let (mid, to_read, mid2, written, mid3, rest, none) = choose|
            mid: TransactionView,
            to_read: Vec<T>,
            mid2: TransactionView,
            written: Vec<T>,
            mid3: TransactionView,
            rest: Vec<T>,
            none: Vec<T>,
        |
            {
                &&& #[trigger] pre.reads_clone(queue.front(), mid, to_read)
                &&& to_read@.len() == 0
                &&& #[trigger] mid.reads_clone(queue.back(), mid2, written)
                &&& #[trigger] mid2.writes(queue.front(), rest, mid3)
                &&& rest@.push(value) == written@.reverse()
                &&& #[trigger] mid3.writes(queue.back(), none, post)
                &&& none@.len() == 0
            };
        let stored = Stored { front: to_read@, back: written@ };
        assert(takes_out(queue.front(), stored.front, pre, mid, to_read));
        assert(takes_out(queue.back(), stored.back, mid, mid2, written));
        assert(steps(queue, stored, Step::Pop(value), pre, post));
    }
    if tests_empty(queue, pre, post, Ok(empty)) {
        let (mid, to_read) = choose|mid: TransactionView, to_read: Arc<Vec<T>>|
            {
                &&& #[trigger] pre.reads(queue.front(), mid, Ok(to_read))
                &&& if to_read@.len() > 0 {
                    Ok::<bool, StmControl>(empty) == Ok::<bool, StmControl>(false) && post == mid
                } else {
                    exists|written: Arc<Vec<T>>| #[trigger]
                        mid.reads(queue.back(), post, Ok(written)) && empty == (written@.len()
                            == 0)
                }
            };
        let x: Vec<T> = *to_read;
        assert(cloned(x, x));
        assert(pre.reads(queue.front(), mid, Ok(Arc::new(x))));
        assert(pre.reads_clone(queue.front(), mid, x));
        if x@.len() > 0 {
            let stored = Stored { front: x@, back: Seq::empty() };
            assert(takes_out(queue.front(), stored.front, pre, mid, x));
            assert(steps(queue, stored, Step::Test(empty), pre, post));
        } else {
            let written = choose|written: Arc<Vec<T>>| #[trigger]
                mid.reads(queue.back(), post, Ok(written)) && empty == (written@.len() == 0);
            let y: Vec<T> = *written;
            assert(cloned(y, y));
            assert(mid.reads(queue.back(), post, Ok(Arc::new(y))));
            assert(mid.reads_clone(queue.back(), post, y));
            let stored = Stored { front: x@, back: y@ };
            assert(takes_out(queue.front(), stored.front, pre, mid, x));
            assert(takes_out(queue.back(), stored.back, mid, post, y));
            assert(steps(queue, stored, Step::Test(empty), pre, post));
        }
    }
}

/// A transaction has these items in a vector: they are in its log, or in the store if it has not
/// accessed the vector.
pub open spec fn shows<T: 'static>(
    tx: TransactionView,
    tvar: TVar<Vec<T>>,
    stored: Seq<T>,
    items: Seq<T>,
) -> bool {
    if tx.log.contains_key(tvar.id()) {
        exists|v: Vec<T>| #[trigger]
            tx.log[tvar.id()].vvar().value.is_exactly(v) && v@ == items
    } else {
        items == stored
    }
}

/// A transaction has these items in a queue, the head first.
pub open spec fn shows_items<T: 'static>(
    queue: TQueue<T>,
    stored: Stored<T>,
    tx: TransactionView,
    items: Seq<T>,
) -> bool {
    exists|front: Seq<T>, back: Seq<T>|
        {
            &&& #[trigger] shows(tx, queue.front(), stored.front, front)
            &&& #[trigger] shows(tx, queue.back(), stored.back, back)
            &&& items == items_of(front, back)
        }
}

/// A transaction keeps the items of a vector as long as the log has the same of it.
proof fn lemma_shows_transfers<T: 'static>(
    pre: TransactionView,
    post: TransactionView,
    tvar: TVar<Vec<T>>,
    stored: Seq<T>,
    items: Seq<T>,
)
    requires
        pre.log.contains_key(tvar.id()) == post.log.contains_key(tvar.id()),
        pre.log.contains_key(tvar.id()) ==> pre.log[tvar.id()] == post.log[tvar.id()],
        shows(pre, tvar, stored, items),
    ensures
        shows(post, tvar, stored, items),
{
    if pre.log.contains_key(tvar.id()) {
        let v = choose|v: Vec<T>| #[trigger]
            pre.log[tvar.id()].vvar().value.is_exactly(v) && v@ == items;
        assert(post.log[tvar.id()].vvar().value.is_exactly(v));
    }
}

/// A vector is read as the items that the transaction has in it; these stay, in this vector and in
/// another one.
proof fn lemma_take_out<T: Clone + 'static>(
    tvar: TVar<Vec<T>>,
    stored: Seq<T>,
    pre: TransactionView,
    post: TransactionView,
    x: Vec<T>,
    items: Seq<T>,
    other: TVar<Vec<T>>,
    other_stored: Seq<T>,
    other_items: Seq<T>,
)
    requires
        keeps_items::<T>(),
        tvar.id() != other.id(),
        takes_out(tvar, stored, pre, post, x),
        shows(pre, tvar, stored, items),
        shows(pre, other, other_stored, other_items),
    ensures
        x@ == items,
        shows(post, tvar, stored, items),
        shows(post, other, other_stored, other_items),
{
    let y = choose|y: Vec<T>| #[trigger]
        pre.reads(tvar, post, Ok(Arc::new(y))) && cloned(y, x);
    lemma_cloned_items(y, x);
    assert(post.log[tvar.id()].vvar().value.is_exactly(y));
    if pre.log.contains_key(tvar.id()) {
        let v = choose|v: Vec<T>| #[trigger]
            pre.log[tvar.id()].vvar().value.is_exactly(v) && v@ == items;
        assert(v == y);
    }
    lemma_shows_transfers(pre, post, other, other_stored, other_items);
}

/// A vector that is written has the new items, and another one keeps its own.
proof fn lemma_put_in<T: 'static>(
    tvar: TVar<Vec<T>>,
    stored: Seq<T>,
    pre: TransactionView,
    x: Vec<T>,
    post: TransactionView,
    other: TVar<Vec<T>>,
    other_stored: Seq<T>,
    other_items: Seq<T>,
)
    requires
        tvar.id() != other.id(),
        pre.writes(tvar, x, post),
        shows(pre, other, other_stored, other_items),
    ensures
        shows(post, tvar, stored, x@),
        shows(post, other, other_stored, other_items),
{
    assert(post.log[tvar.id()].vvar().value.is_exactly(x));
    lemma_shows_transfers(pre, post, other, other_stored, other_items);
}

/// The items that a queue has after a call: a push adds its value at the end, a pop takes its value
/// from the head, and a test changes nothing.
pub open spec fn moves<T>(step: Step<T>, before: Seq<T>, after: Seq<T>) -> bool {
    match step {
        Step::Push(value) => after == before.push(value),
        Step::Pop(value) => before == seq![value] + after,
        Step::Test(empty) => after == before && empty == (before.len() == 0),
    }
}

/// Every call on a queue does to its items what it says.
pub proof fn call_moves_items<T: Clone + 'static>(
    queue: TQueue<T>,
    stored: Stored<T>,
    step: Step<T>,
    pre: TransactionView,
    post: TransactionView,
    before: Seq<T>,
)
    requires
        queue.front().id() != queue.back().id(),
        keeps_items::<T>(),
        steps(queue, stored, step, pre, post),
        shows_items(queue, stored, pre, before),
    ensures
        exists|after: Seq<T>| #[trigger]
            shows_items(queue, stored, post, after) && moves(step, before, after),
{
    let (f, b) = (queue.front(), queue.back());
    let (front, back) = choose|front: Seq<T>, back: Seq<T>|
        {
            &&& #[trigger] shows(pre, f, stored.front, front)
            &&& #[trigger] shows(pre, b, stored.back, back)
            &&& before == items_of(front, back)
        };
    match step {
        Step::Push(value) => {
            let (mid, written, more) = choose|mid: TransactionView, written: Vec<T>, more: Vec<T>|
                {
                    &&& #[trigger] takes_out(b, stored.back, pre, mid, written)
                    &&& #[trigger] mid.writes(b, more, post)
                    &&& more@ == written@.push(value)
                };
            lemma_take_out(b, stored.back, pre, mid, written, back, f, stored.front, front);
            lemma_put_in(b, stored.back, mid, more, post, f, stored.front, front);
            let after = items_of(front, more@);
            assert(after =~= before.push(value));
            assert(shows_items(queue, stored, post, after));
        },
        Step::Pop(value) => {
            if exists|mid: TransactionView, to_read: Vec<T>, rest: Vec<T>|
                {
                    &&& #[trigger] takes_out(f, stored.front, pre, mid, to_read)
                    &&& #[trigger] mid.writes(f, rest, post)
                    &&& to_read@ == rest@.push(value)
                } {
                let (mid, to_read, rest) = choose|
                    mid: TransactionView,
                    to_read: Vec<T>,
                    rest: Vec<T>,
                |
                    {
                        &&& #[trigger] takes_out(f, stored.front, pre, mid, to_read)
                        &&& #[trigger] mid.writes(f, rest, post)
                        &&& to_read@ == rest@.push(value)
                    };
                lemma_take_out(f, stored.front, pre, mid, to_read, front, b, stored.back, back);
                lemma_put_in(f, stored.front, mid, rest, post, b, stored.back, back);
                let after = items_of(rest@, back);
                assert(before =~= seq![value] + after);
                assert(shows_items(queue, stored, post, after));
            } else {
                let (mid, to_read, mid2, written, mid3, rest, none) = choose|
                    mid: TransactionView,
                    to_read: Vec<T>,
                    mid2: TransactionView,
                    written: Vec<T>,
                    mid3: TransactionView,
                    rest: Vec<T>,
                    none: Vec<T>,
                |
                    {
                        &&& #[trigger] takes_out(f, stored.front, pre, mid, to_read)
                        &&& to_read@.len() == 0
                        &&& #[trigger] takes_out(b, stored.back, mid, mid2, written)
                        &&& #[trigger] mid2.writes(f, rest, mid3)
                        &&& rest@.push(value) == written@.reverse()
                        &&& #[trigger] mid3.writes(b, none, post)
                        &&& none@.len() == 0
                    };
                lemma_take_out(f, stored.front, pre, mid, to_read, front, b, stored.back, back);
                lemma_take_out(b, stored.back, mid, mid2, written, back, f, stored.front, front);
                lemma_put_in(f, stored.front, mid2, rest, mid3, b, stored.back, back);
                lemma_put_in(b, stored.back, mid3, none, post, f, stored.front, rest@);
                let after = items_of(rest@, none@);
                assert(rest@.push(value).reverse() =~= written@);
                assert(before =~= seq![value] + after);
                assert(shows_items(queue, stored, post, after));
            }
        },
        Step::Test(empty) => {
            let (mid, to_read) = choose|mid: TransactionView, to_read: Vec<T>|
                {
                    &&& #[trigger] takes_out(f, stored.front, pre, mid, to_read)
                    &&& if to_read@.len() > 0 {
                        !empty && post == mid
                    } else {
                        exists|written: Vec<T>| #[trigger]
                            takes_out(b, stored.back, mid, post, written) && empty == (written@.len()
                                == 0)
                    }
                };
            lemma_take_out(f, stored.front, pre, mid, to_read, front, b, stored.back, back);
            if to_read@.len() == 0 {
                let written = choose|written: Vec<T>| #[trigger]
                    takes_out(b, stored.back, mid, post, written) && empty == (written@.len() == 0);
                lemma_take_out(b, stored.back, mid, post, written, back, f, stored.front, front);
            }
            assert(shows_items(queue, stored, post, before));
        },
    }
}

/// The calls that a transaction has made on a queue, with its states before and after each of them,
/// and what the store had.
pub struct Run<T> {
    pub stored: Stored<T>,
    pub steps: Seq<Step<T>>,
    pub states: Seq<TransactionView>,
}

impl<T: Clone + 'static> Run<T> {
    /// These calls were made one after the other, and before them the queue had not been accessed.
    pub open spec fn is_of(self, queue: TQueue<T>) -> bool {
        &&& self.states.len() == self.steps.len() + 1
        &&& !self.states[0].log.contains_key(queue.front().id())
        &&& !self.states[0].log.contains_key(queue.back().id())
        &&& forall|i: int|
            0 <= i < self.steps.len() ==> steps(
                queue,
                self.stored,
                #[trigger] self.steps[i],
                self.states[i],
                self.states[i + 1],
            )
    }

    /// The transaction has left these vectors.
    pub open spec fn leaves(self, queue: TQueue<T>, stored: Stored<T>) -> bool {
        &&& shows(self.states.last(), queue.front(), self.stored.front, stored.front)
        &&& shows(self.states.last(), queue.back(), self.stored.back, stored.back)
    }
}

/// The values of the pushes among some calls.
pub open spec fn pushed<T>(steps: Seq<Step<T>>) -> Seq<T>
    decreases steps.len(),
{
    if steps.len() == 0 {
        Seq::empty()
    } else {
        match steps.last() {
            Step::Push(value) => pushed(steps.drop_last()).push(value),
            _ => pushed(steps.drop_last()),
        }
    }
}

/// The values of the pops among some calls.
pub open spec fn popped<T>(steps: Seq<Step<T>>) -> Seq<T>
    decreases steps.len(),
{
    if steps.len() == 0 {
        Seq::empty()
    } else {
        match steps.last() {
            Step::Pop(value) => popped(steps.drop_last()).push(value),
            _ => popped(steps.drop_last()),
        }
    }
}

/// A queue is first in, first out over any number of calls in a transaction: the items that it had,
/// followed by what was pushed, are what was popped, followed by the items that it has.
pub proof fn queue_is_first_in_first_out<T: Clone + 'static>(queue: TQueue<T>, run: Run<T>)
    requires
        queue.front().id() != queue.back().id(),
        keeps_items::<T>(),
        run.is_of(queue),
    ensures
        exists|left: Seq<T>| #[trigger]
            shows_items(queue, run.stored, run.states.last(), left) && items_of(
                run.stored.front,
                run.stored.back,
            ) + pushed(run.steps) == popped(run.steps) + left,
    decreases run.steps.len(),
{
    let found = items_of(run.stored.front, run.stored.back);
    if run.steps.len() == 0 {
        assert(shows(run.states.last(), queue.front(), run.stored.front, run.stored.front));
        assert(shows(run.states.last(), queue.back(), run.stored.back, run.stored.back));
        assert(shows_items(queue, run.stored, run.states.last(), found));
        assert(found + pushed(run.steps) =~= popped(run.steps) + found);
    } else {
        let shorter = Run {
            steps: run.steps.drop_last(),
            states: run.states.drop_last(),
            ..run
        };
        assert(shorter.is_of(queue)) by {
            assert forall|i: int| 0 <= i < shorter.steps.len() implies steps(
                queue,
                shorter.stored,
                #[trigger] shorter.steps[i],
                shorter.states[i],
                shorter.states[i + 1],
            ) by {
                assert(run.steps[i] == shorter.steps[i]);
            }
        }
        queue_is_first_in_first_out(queue, shorter);
        let before = choose|before: Seq<T>| #[trigger]
            shows_items(queue, run.stored, shorter.states.last(), before) && found + pushed(
                shorter.steps,
            ) == popped(shorter.steps) + before;
        let step = run.steps.last();
        assert(run.steps[run.steps.len() - 1] == step);
        call_moves_items(
            queue,
            run.stored,
            step,
            shorter.states.last(),
            run.states.last(),
            before,
        );
        let after = choose|after: Seq<T>| #[trigger]
            shows_items(queue, run.stored, run.states.last(), after) && moves(step, before, after);
        assert(found + pushed(run.steps) =~= popped(run.steps) + after) by {
            let (all, out) = (found + pushed(shorter.steps), popped(shorter.steps));
            match step {
                Step::Push(value) => {
                    assert(found + pushed(run.steps) =~= all.push(value));
                    assert(out + after =~= (out + before).push(value));
                },
                Step::Pop(value) => {
                    assert(popped(run.steps) + after =~= out + (seq![value] + after));
                },
                Step::Test(_) => {},
            }
        }
    }
}

/// All calls of some transactions, in their order.
pub open spec fn all_steps<T>(runs: Seq<Run<T>>) -> Seq<Step<T>>
    decreases runs.len(),
{
    if runs.len() == 0 {
        Seq::empty()
    } else {
        all_steps(runs.drop_last()) + runs.last().steps
    }
}

proof fn lemma_all_moved<T>(first: Seq<Step<T>>, second: Seq<Step<T>>)
    ensures
        pushed(first + second) == pushed(first) + pushed(second),
        popped(first + second) == popped(first) + popped(second),
    decreases second.len(),
{
    if second.len() == 0 {
        assert(first + second =~= first);
        assert(pushed(first) + pushed(second) =~= pushed(first));
        assert(popped(first) + popped(second) =~= popped(first));
    } else {
        lemma_all_moved(first, second.drop_last());
        assert((first + second).drop_last() =~= first + second.drop_last());
        assert(pushed(first + second) =~= pushed(first) + pushed(second));
        assert(popped(first + second) =~= popped(first) + popped(second));
    }
}

/// A queue is first in, first out over any number of transactions, each of which finds the vectors
/// as the one before has left them: the items that it had, followed by all that was pushed, are all
/// that was popped, followed by the items that it has.
pub proof fn queue_is_first_in_first_out_over_transactions<T: Clone + 'static>(
    queue: TQueue<T>,
    runs: Seq<Run<T>>,
    left: Stored<T>,
)
    requires
        queue.front().id() != queue.back().id(),
        keeps_items::<T>(),
        runs.len() > 0,
        forall|i: int| 0 <= i < runs.len() ==> (#[trigger] runs[i]).is_of(queue),
        forall|i: int|
            0 < i < runs.len() ==> runs[i - 1].leaves(queue, (#[trigger] runs[i]).stored),
        runs.last().leaves(queue, left),
    ensures
        items_of(runs[0].stored.front, runs[0].stored.back) + pushed(all_steps(runs)) == popped(
            all_steps(runs),
        ) + items_of(left.front, left.back),
    decreases runs.len(),
{
    let run = runs.last();
    assert(runs[runs.len() - 1] == run);
    let found = items_of(run.stored.front, run.stored.back);
    queue_is_first_in_first_out(queue, run);
    let after = choose|after: Seq<T>| #[trigger]
        shows_items(queue, run.stored, run.states.last(), after) && found + pushed(run.steps)
            == popped(run.steps) + after;
    assert(after == items_of(left.front, left.back));
    let earlier = runs.drop_last();
    lemma_all_moved(all_steps(earlier), run.steps);
    if earlier.len() == 0 {
        assert(all_steps(earlier) == Seq::<Step<T>>::empty());
        assert(all_steps(runs) =~= run.steps);
    } else {
        assert(forall|i: int| 0 <= i < earlier.len() ==> earlier[i] == #[trigger] runs[i]);
        assert(earlier.last() == runs[runs.len() - 2]);
        queue_is_first_in_first_out_over_transactions(queue, earlier, run.stored);
        let first = items_of(runs[0].stored.front, runs[0].stored.back);
        let (before, out) = (all_steps(earlier), popped(all_steps(earlier)));
        assert(first + pushed(all_steps(runs)) =~= (first + pushed(before)) + pushed(run.steps));
        assert((out + found) + pushed(run.steps) =~= out + (found + pushed(run.steps)));
        assert(out + (popped(run.steps) + after) =~= popped(all_steps(runs)) + after);
    }
}

/// A commit hands on what it leaves of a vector: a transaction that reads it, and finds what the
/// commit has left, has the items that the committed one had.
pub proof fn commit_hands_a_vector_on<T: 'static>(
    tvar: TVar<Vec<T>>,
    stored: Seq<T>,
    tx: TransactionView,
    version: Version,
    reader: TransactionView,
    post: TransactionView,
    x: Vec<T>,
)
    requires
        tx.log.contains_key(tvar.id()),
        reader.observes(tvar, left_by(tx, version, tvar.id()), post, Ok(Arc::new(x))),
    ensures
        shows(tx, tvar, stored, x@),
{
    next_transaction_reads_what_was_left(tvar, tx, version, reader, post, Arc::new(x));
    assert(tx.log[tvar.id()].vvar().value.is_exactly(x));
}

/// Reads do not block writes, nor the other way round. Take a pop from a vector that is not empty
/// and a push, by two transactions that have started from the same store: both of them are
/// committed, in either order, and then the queue has lost its head and has the pushed value at its
/// end.
pub proof fn overlapping_push_and_pop_are_both_committed<T: Clone + 'static>(
    queue: TQueue<T>,
    store: Map<ID, VVar>,
    stored: Stored<T>,
    start: Version,
    taken_out: T,
    popper: TransactionView,
    put_in: T,
    pusher: TransactionView,
    pop_version: Version,
    push_version: Version,
)
    requires
        queue.front().id() != queue.back().id(),
        keeps_items::<T>(),
        store.contains_key(queue.front().id()),
        store.contains_key(queue.back().id()),
        stored.front.len() > 0,
        steps(queue, stored, Step::Pop(taken_out), TransactionView::starts(start), popper),
        steps(queue, stored, Step::Push(put_in), TransactionView::starts(start), pusher),
        !is_newer(store, popper.log),
        !is_newer(store, pusher.log),
    ensures
        ({
            let popped = commit_on(popper, store, true, pop_version);
            let pushed = commit_on(pusher, store, true, push_version);
            let pop_first = commit_on(pusher, popped.0, true, push_version);
            let push_first = commit_on(popper, pushed.0, true, pop_version);
            &&& popped.1 == Some(pop_version) && pop_first.1 == Some(push_version)
            &&& pushed.1 == Some(push_version) && push_first.1 == Some(pop_version)
            &&& pop_first.0 == push_first.0
            &&& exists|front: Vec<T>, back: Vec<T>|
                {
                    &&& #[trigger] pop_first.0[queue.front().id()].value.is_exactly(front)
                    &&& #[trigger] pop_first.0[queue.back().id()].value.is_exactly(back)
                    &&& seq![taken_out] + items_of(front@, back@) == items_of(
                        stored.front,
                        stored.back,
                    ).push(put_in)
                }
        }),
{
    let (f, b) = (queue.front(), queue.back());
    let begin = TransactionView::starts(start);
    let (mid, to_read, rest) = choose|mid: TransactionView, to_read: Vec<T>, rest: Vec<T>|
        {
            &&& #[trigger] takes_out(f, stored.front, begin, mid, to_read)
            &&& #[trigger] mid.writes(f, rest, popper)
            &&& to_read@ == rest@.push(taken_out)
        };
    let (mid2, written, more) = choose|mid: TransactionView, written: Vec<T>, more: Vec<T>|
        {
            &&& #[trigger] takes_out(b, stored.back, begin, mid, written)
            &&& #[trigger] mid.writes(b, more, pusher)
            &&& more@ == written@.push(put_in)
        };
    assert(forall|id: ID| popper.log.contains_key(id) <==> id == f.id());
    assert(forall|id: ID| pusher.log.contains_key(id) <==> id == b.id());
    assert(popper.writes_to(f.id()) && pusher.writes_to(b.id()));
    let popped = commit_on(popper, store, true, pop_version);
    let pushed = commit_on(pusher, store, true, push_version);
    assert(popped.0[b.id()] == store[b.id()]);
    assert(pushed.0[f.id()] == store[f.id()]);
    assert(!is_newer(popped.0, pusher.log)) by {
        if is_newer(popped.0, pusher.log) {
            let id = choose|id: ID| #[trigger]
                pusher.log.contains_key(id) && popped.0[id].version
                    > pusher.log[id].vvar().version;
            assert(is_newer(store, pusher.log));
        }
    }
    assert(!is_newer(pushed.0, popper.log)) by {
        if is_newer(pushed.0, popper.log) {
            let id = choose|id: ID| #[trigger]
                popper.log.contains_key(id) && pushed.0[id].version
                    > popper.log[id].vvar().version;
            assert(is_newer(store, popper.log));
        }
    }
    let pop_first = commit_on(pusher, popped.0, true, push_version);
    let push_first = commit_on(popper, pushed.0, true, pop_version);
    assert(pop_first.0 =~= push_first.0);
    assert(pop_first.0[f.id()].value.is_exactly(rest));
    assert(pop_first.0[b.id()].value.is_exactly(more));
    assert(seq![taken_out] + items_of(rest@, more@) =~= items_of(stored.front, stored.back).push(
        put_in,
    ));
}

impl<T: Send + Sync + Clone + 'static> TQueueLike<T> for TQueue<T> {
    open spec fn known_to(&self, tx: TransactionView) -> bool {
        tx.coherent(self.front()) && tx.coherent(self.back())
    }

    open spec fn may_hold(&self, tx: TransactionView, items: Seq<T>) -> bool {
        may_find(*self, tx, items)
    }

    fn write(&self, tx: &mut Transaction, value: T) -> (r: Stm<()>)
        ensures
            enqueues(*self, old(tx)@, value, final(tx)@, r),
    {
        proof {
            use_type_invariant(self);
        }
        let mut v = match self.write.read_clone(tx) {
            Ok(v) => v,
            Err(e) => {
                return Err(e);
            },
        };
        v.push(value);
        let r = self.write.write(tx, v);
        proof {
            assert(enqueues(*self, old(tx)@, value, tx@, r));
            assert forall|items: Seq<T>| #[trigger] self.may_hold(tx@, items) implies items.len()
                > 0 && items.last() == value && self.may_hold(old(tx)@, items.drop_last()) by {
                push_adds_at_the_end(*self, old(tx)@, value, tx@, items);
            }
        }
        r
    }

    fn read(&self, tx: &mut Transaction) -> (r: Stm<T>)
        ensures
            match r {
                Ok(value) => dequeues_front(*self, old(tx)@, final(tx)@, value) || dequeues_back(
                    *self,
                    old(tx)@,
                    final(tx)@,
                    value,
                ),
                Err(StmControl::Retry) => finds_empty(*self, old(tx)@, final(tx)@),
                Err(StmControl::Failure) => fails(*self, old(tx)@, final(tx)@),
            },
    {
        proof {
            use_type_invariant(self);
        }
        let mut rv = match self.read.read_clone(tx) {
            Ok(rv) => rv,
            Err(e) => {
                return Err(e);
            },
        };
        let ghost mid = tx@;
        let ghost to_read = rv;
        // Elements are stored in reverse order.
        match rv.pop() {
            Some(value) => {
                let _ = self.read.write(tx, rv);
                proof {
                    assert(to_read@ =~= rv@.push(value));
                    assert(dequeues_front(*self, old(tx)@, tx@, value));
                    assert forall|items: Seq<T>| #[trigger]
                        self.may_hold(tx@, items) implies self.may_hold(
                        old(tx)@,
                        seq![value] + items,
                    ) by {
                        pop_takes_the_head(*self, old(tx)@, tx@, value, items);
                    }
                }
                Ok(value)
            },
            None => {
                let wv = match self.write.read_clone(tx) {
                    Ok(wv) => wv,
                    Err(e) => {
                        return Err(e);
                    },
                };
                let ghost mid2 = tx@;
                if wv.is_empty() {
                    proof {
                        assert(mid.reads_clone(self.back(), mid2, wv));
                        assert(finds_empty(*self, old(tx)@, tx@));
                        assert forall|items: Seq<T>| #[trigger]
                            self.may_hold(tx@, items) implies items.len() == 0 by {
                            empty_has_no_items(*self, old(tx)@, tx@, items);
                        }
                    }
                    retry()
                } else {
                    let ghost written = wv;
                    let mut wv = reversed(wv);
                    match wv.pop() {
                        Some(value) => {
                            let _ = self.read.write(tx, wv);
                            let ghost mid3 = tx@;
                            let none: Vec<T> = Vec::new();
                            let _ = self.write.write(tx, none);
                            proof {
                                assert(wv@.push(value) =~= written@.reverse());
                                assert(mid.reads_clone(self.back(), mid2, written));
                                assert(mid2.writes(self.front(), wv, mid3));
                                assert(mid3.writes(self.back(), none, tx@));
                                assert(dequeues_back(*self, old(tx)@, tx@, value));
                                assert forall|items: Seq<T>| #[trigger]
                                    self.may_hold(tx@, items) implies self.may_hold(
                                    old(tx)@,
                                    seq![value] + items,
                                ) by {
                                    pop_takes_the_head(*self, old(tx)@, tx@, value, items);
                                }
                            }
                            Ok(value)
                        },
                        None => vstd::pervasive::unreached(),
                    }
                }
            },
        }
    }

    fn is_empty(&self, tx: &mut Transaction) -> (r: Stm<bool>)
        ensures
            tests_empty(*self, old(tx)@, final(tx)@, r),
    {
        proof {
            use_type_invariant(self);
        }
        let to_read = match self.read.read(tx) {
            Ok(v) => v,
            Err(e) => {
                return Err(e);
            },
        };
        let ghost mid = tx@;
        assert(old(tx)@.reads(self.front(), mid, Ok(to_read)));
        if to_read.is_empty() {
            let written = match self.write.read(tx) {
                Ok(v) => v,
                Err(e) => {
                    return Err(e);
                },
            };
            assert(mid.reads(self.back(), tx@, Ok(written)));
            Ok(written.is_empty())
        } else {
            Ok(false)
        }
    }
}

} // verus!
