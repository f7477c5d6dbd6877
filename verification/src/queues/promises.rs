//! What each call on a queue promises: how what comes out of it relates to what went in.

use crate::promises::{is_fresh, only_touches, relates_by_a_read, relates_by_a_write};
use crate::queues::tqueue::{
    dequeues_back, dequeues_front, finds_empty, starts_empty, tests_empty, TQueue,
};
use crate::queues::TQueueLike;
use crate::transaction::{Transaction, TransactionView};
use crate::value::is_data;
use crate::vars::{IdSource, TVar, ID};
use crate::{Stm, StmControl};
use std::sync::Arc;
use vstd::prelude::*;

verus! {

/// A vector is read, and `items` is a clone of it.
pub open spec fn clones_out<T: Clone + 'static>(
    pre: TransactionView,
    tvar: TVar<Vec<T>>,
    post: TransactionView,
    items: Vec<T>,
) -> bool {
    exists|x: Vec<T>| #[trigger]
        relates_by_a_read(pre, tvar, post, Ok(Arc::new(x))) && cloned(x, items)
}

proof fn lemma_clones_out<T: Clone + 'static>(
    pre: TransactionView,
    tvar: TVar<Vec<T>>,
    post: TransactionView,
    items: Vec<T>,
)
    requires
        pre.reads_clone(tvar, post, items),
    ensures
        clones_out(pre, tvar, post, items),
{
    let x = choose|x: Vec<T>| #[trigger]
        pre.reads(tvar, post, Ok(Arc::new(x))) && cloned(x, items);
    assert(relates_by_a_read(pre, tvar, post, Ok(Arc::new(x))));
}

/// A new queue is two empty vectors, with the next two IDs.
pub proof fn new_queue_is_two_empty_vectors<T: Send + Sync + Clone + 'static>(queue: TQueue<T>)
    ensures
        forall|ids: &mut IdSource| #[trigger]
            call_ensures(TQueue::<T>::new, (ids,), queue) ==> starts_out_empty(
                queue,
                (*ids).next,
                (*final(ids)).next,
            ),
        forall|ids: &mut IdSource| #[trigger]
            call_ensures(TQueue::<T>::default, (ids,), queue) ==> starts_out_empty(
                queue,
                (*ids).next,
                (*final(ids)).next,
            ),
{
    lemma_starts_out_empty(queue.front());
    lemma_starts_out_empty(queue.back());
}

/// A queue has two variables with consecutive IDs, and both hold an empty vector at first.
pub open spec fn starts_out_empty<T: 'static>(queue: TQueue<T>, first: ID, next: ID) -> bool {
    &&& queue.front().id() == first
    &&& queue.back().id() != first
    &&& next != first && next != queue.back().id()
    &&& first < ID::MAX - 1 ==> queue.back().id() == first + 1 && next == first + 2
    &&& exists|v: Vec<T>| #[trigger] is_fresh(queue.front(), v) && v@.len() == 0
    &&& exists|v: Vec<T>| #[trigger] is_fresh(queue.back(), v) && v@.len() == 0
}

proof fn lemma_starts_out_empty<T: 'static>(tvar: TVar<Vec<T>>)
    ensures
        starts_empty(tvar) ==> exists|v: Vec<T>| #[trigger] is_fresh(tvar, v) && v@.len() == 0,
{
    if starts_empty(tvar) {
        let v = choose|v: Vec<T>| #[trigger] tvar.svar().starts_with(v) && v@.len() == 0;
        assert(is_fresh(tvar, v));
    }
}

/// A push puts its value at the end of the vector that is written to and touches nothing else; if
/// that cannot be read, it fails, and changes nothing. It never asks for a retry.
pub proof fn push_puts_its_value_at_the_end<T: Send + Sync + Clone + 'static>(
    queue: &TQueue<T>,
    value: T,
    r: Stm<()>,
)
    ensures
        forall|tx: &mut Transaction| #[trigger]
            call_ensures(<TQueue<T> as TQueueLike<T>>::write, (queue, tx, value), r) ==> match r {
                Ok(()) => exists|mid: TransactionView, written: Vec<T>, more: Vec<T>|
                    {
                        &&& #[trigger] clones_out((*tx)@, queue.back(), mid, written)
                        &&& #[trigger] relates_by_a_write(
                            mid,
                            queue.back(),
                            more,
                            (*final(tx))@,
                        )
                        &&& more@.len() == written@.len() + 1
                        &&& more@.last() == value
                        &&& more@.drop_last() == written@
                    },
                Err(e) => relates_by_a_read((*tx)@, queue.back(), (*final(tx))@, Err(e)),
            },
{
    assert forall|pre: TransactionView, post: TransactionView|
        (#[trigger] crate::queues::tqueue::enqueues(*queue, pre, value, post, r)) && r
            is Ok implies exists|mid: TransactionView, written: Vec<T>, more: Vec<T>|
        {
            &&& #[trigger] clones_out(pre, queue.back(), mid, written)
            &&& #[trigger] relates_by_a_write(mid, queue.back(), more, post)
            &&& more@.len() == written@.len() + 1
            &&& more@.last() == value
            &&& more@.drop_last() == written@
        } by {
        let (mid, written, more) = choose|mid: TransactionView, written: Vec<T>, more: Vec<T>|
            {
                &&& #[trigger] pre.reads_clone(queue.back(), mid, written)
                &&& #[trigger] mid.writes(queue.back(), more, post)
                &&& more@ == written@.push(value)
            };
        lemma_clones_out(pre, queue.back(), mid, written);
        assert(more@.drop_last() =~= written@);
        assert(relates_by_a_write(mid, queue.back(), more, post));
    }
}

/// A value is taken from the end of the vector that is read from.
pub open spec fn takes_from_front<T: Clone + 'static>(
    queue: TQueue<T>,
    pre: TransactionView,
    post: TransactionView,
    value: T,
) -> bool {
    exists|mid: TransactionView, to_read: Vec<T>, rest: Vec<T>|
        {
            &&& #[trigger] clones_out(pre, queue.front(), mid, to_read)
            &&& to_read@.len() > 0
            &&& value == to_read@.last()
            &&& rest@ == to_read@.drop_last()
            &&& #[trigger] relates_by_a_write(mid, queue.front(), rest, post)
        }
}

/// The vector that is read from is empty, and a value is taken from the start of the other one, whose
/// other items take its place, the last one first; the other one is left empty.
pub open spec fn takes_from_back<T: Clone + 'static>(
    queue: TQueue<T>,
    pre: TransactionView,
    post: TransactionView,
    value: T,
) -> bool {
    exists|
        mid: TransactionView,
        to_read: Vec<T>,
        mid2: TransactionView,
        written: Vec<T>,
        mid3: TransactionView,
        rest: Vec<T>,
        none: Vec<T>,
    |
        {
            &&& #[trigger] clones_out(pre, queue.front(), mid, to_read)
            &&& to_read@.len() == 0
            &&& #[trigger] clones_out(mid, queue.back(), mid2, written)
            &&& written@.len() > 0
            &&& value == written@[0]
            &&& rest@.len() == written@.len() - 1
            &&& forall|i: int|
                0 <= i < rest@.len() ==> #[trigger] rest@[i] == written@[written@.len() - 1 - i]
            &&& #[trigger] relates_by_a_write(mid2, queue.front(), rest, mid3)
            &&& none@.len() == 0
            &&& #[trigger] relates_by_a_write(mid3, queue.back(), none, post)
        }
}

proof fn lemma_takes<T: Clone + 'static>(
    queue: TQueue<T>,
    pre: TransactionView,
    post: TransactionView,
    value: T,
)
    ensures
        dequeues_front(queue, pre, post, value) ==> takes_from_front(queue, pre, post, value),
        dequeues_back(queue, pre, post, value) ==> takes_from_back(queue, pre, post, value),
{
    if dequeues_front(queue, pre, post, value) {
        let (mid, to_read, rest) = choose|mid: TransactionView, to_read: Vec<T>, rest: Vec<T>|
            {
                &&& #[trigger] pre.reads_clone(queue.front(), mid, to_read)
                &&& #[trigger] mid.writes(queue.front(), rest, post)
                &&& to_read@ == rest@.push(value)
            };
        lemma_clones_out(pre, queue.front(), mid, to_read);
        assert(rest@ =~= to_read@.drop_last());
        assert(relates_by_a_write(mid, queue.front(), rest, post));
    }
    if dequeues_back(queue, pre, post, value) {
        let (mid, to_read, mid2, written, mid3, rest, none) = choose|
            mid: TransactionView,
            to_read: Vec<T>,
            mid2: TransactionView,
            written: Vec<T>,
            mid3: TransactionView,
            rest: Vec<T>,
            none: Vec<T>,
        |
            {
                &&& #[trigger] pre.reads_clone(queue.front(), mid, to_read)
                &&& to_read@.len() == 0
                &&& #[trigger] mid.reads_clone(queue.back(), mid2, written)
                &&& #[trigger] mid2.writes(queue.front(), rest, mid3)
                &&& rest@.push(value) == written@.reverse()
                &&& #[trigger] mid3.writes(queue.back(), none, post)
                &&& none@.len() == 0
            };
        lemma_clones_out(pre, queue.front(), mid, to_read);
        lemma_clones_out(mid, queue.back(), mid2, written);
        assert(rest@.push(value).len() == written@.len());
        assert(rest@.push(value)[rest@.len() as int] == written@.reverse()[rest@.len() as int]);
        assert forall|i: int| 0 <= i < rest@.len() implies #[trigger] rest@[i]
            == written@[written@.len() - 1 - i] by {
            assert(rest@.push(value)[i] == written@.reverse()[i]);
        }
        assert(relates_by_a_write(mid2, queue.front(), rest, mid3));
        assert(relates_by_a_write(mid3, queue.back(), none, post));
    }
}

/// A pop takes the item that has been in the queue for longest: the last of the vector that is read
/// from, and if that is empty the first of the other one.
pub proof fn pop_takes_the_oldest<T: Send + Sync + Clone + 'static>(queue: &TQueue<T>, value: T)
    ensures
        forall|tx: &mut Transaction| #[trigger]
            call_ensures(<TQueue<T> as TQueueLike<T>>::read, (queue, tx), Ok(value))
                ==> takes_from_front(*queue, (*tx)@, (*final(tx))@, value) || takes_from_back(
                *queue,
                (*tx)@,
                (*final(tx))@,
                value,
            ),
{
    assert forall|pre: TransactionView, post: TransactionView| #[trigger]
        dequeues_front(*queue, pre, post, value) implies takes_from_front(
        *queue,
        pre,
        post,
        value,
    ) by {
        lemma_takes(*queue, pre, post, value);
    }
    assert forall|pre: TransactionView, post: TransactionView| #[trigger]
        dequeues_back(*queue, pre, post, value) implies takes_from_back(
        *queue,
        pre,
        post,
        value,
    ) by {
        lemma_takes(*queue, pre, post, value);
    }
}

/// A pop asks for a retry only where it has read both vectors and found both of them empty, and it
/// has written nothing then.
pub proof fn pop_retries_only_if_empty<T: Send + Sync + Clone + 'static>(queue: &TQueue<T>)
    ensures
        forall|tx: &mut Transaction| #[trigger]
            call_ensures(
                <TQueue<T> as TQueueLike<T>>::read,
                (queue, tx),
                Err(StmControl::Retry),
            ) ==> exists|mid: TransactionView, to_read: Vec<T>, written: Vec<T>|
                {
                    &&& #[trigger] clones_out((*tx)@, queue.front(), mid, to_read)
                    &&& to_read@.len() == 0
                    &&& #[trigger] clones_out(mid, queue.back(), (*final(tx))@, written)
                    &&& written@.len() == 0
                },
{
    assert forall|pre: TransactionView, post: TransactionView| #[trigger]
        finds_empty(*queue, pre, post) implies exists|
        mid: TransactionView,
        to_read: Vec<T>,
        written: Vec<T>,
    |
        {
            &&& #[trigger] clones_out(pre, queue.front(), mid, to_read)
            &&& to_read@.len() == 0
            &&& #[trigger] clones_out(mid, queue.back(), post, written)
            &&& written@.len() == 0
        } by {
        let (mid, to_read, written) = choose|
            mid: TransactionView,
            to_read: Vec<T>,
            written: Vec<T>,
        |
            {
                &&& #[trigger] pre.reads_clone(queue.front(), mid, to_read)
                &&& to_read@.len() == 0
                &&& #[trigger] mid.reads_clone(queue.back(), post, written)
                &&& written@.len() == 0
            };
        lemma_clones_out(pre, queue.front(), mid, to_read);
        lemma_clones_out(mid, queue.back(), post, written);
    }
}

/// A pop fails only where one of the vectors cannot be read: the one that is read from, or, if that
/// has been found empty, the other one. It has written nothing then.
pub proof fn pop_fails_only_on_a_change<T: Send + Sync + Clone + 'static>(queue: &TQueue<T>)
    ensures
        forall|tx: &mut Transaction| #[trigger]
            call_ensures(
                <TQueue<T> as TQueueLike<T>>::read,
                (queue, tx),
                Err(StmControl::Failure),
            ) ==> {
                ||| relates_by_a_read(
                    (*tx)@,
                    queue.front(),
                    (*final(tx))@,
                    Err(StmControl::Failure),
                )
                ||| exists|mid: TransactionView, to_read: Vec<T>|
                    {
                        &&& #[trigger] clones_out((*tx)@, queue.front(), mid, to_read)
                        &&& to_read@.len() == 0
                        &&& relates_by_a_read(
                            mid,
                            queue.back(),
                            (*final(tx))@,
                            Err(StmControl::Failure),
                        )
                    }
            },
{
    assert forall|pre: TransactionView, mid: TransactionView, items: Vec<T>| #[trigger]
        pre.reads_clone(queue.front(), mid, items) implies clones_out(
        pre,
        queue.front(),
        mid,
        items,
    ) by {
        lemma_clones_out(pre, queue.front(), mid, items);
    }
}

/// A test says that a queue is empty exactly where it has read both vectors and found both of them
/// empty; it says that it is not as soon as it has found an item in one of them. It writes nothing,
/// and never asks for a retry.
pub proof fn test_tells_whether_there_is_an_item<T: Send + Sync + Clone + 'static>(
    queue: &TQueue<T>,
    r: Stm<bool>,
)
    ensures
        forall|tx: &mut Transaction| #[trigger]
            call_ensures(<TQueue<T> as TQueueLike<T>>::is_empty, (queue, tx), r) ==> {
                ||| r matches Err(e) && relates_by_a_read(
                    (*tx)@,
                    queue.front(),
                    (*final(tx))@,
                    Err(e),
                )
                ||| exists|x: Arc<Vec<T>>|
                    {
                        &&& #[trigger] relates_by_a_read(
                            (*tx)@,
                            queue.front(),
                            (*final(tx))@,
                            Ok(x),
                        )
                        &&& x@.len() > 0
                        &&& r == Ok::<bool, StmControl>(false)
                    }
                ||| exists|mid: TransactionView, x: Arc<Vec<T>>, y: Arc<Vec<T>>|
                    {
                        &&& #[trigger] relates_by_a_read((*tx)@, queue.front(), mid, Ok(x))
                        &&& x@.len() == 0
                        &&& #[trigger] relates_by_a_read(
                            mid,
                            queue.back(),
                            (*final(tx))@,
                            Ok(y),
                        )
                        &&& r == Ok::<bool, StmControl>(y@.len() == 0)
                    }
                ||| exists|mid: TransactionView, x: Arc<Vec<T>>|
                    {
                        &&& #[trigger] relates_by_a_read((*tx)@, queue.front(), mid, Ok(x))
                        &&& x@.len() == 0
                        &&& r matches Err(e) && relates_by_a_read(
                            mid,
                            queue.back(),
                            (*final(tx))@,
                            Err(e),
                        )
                    }
            },
{
    assert forall|pre: TransactionView, tvar: TVar<Vec<T>>, post: TransactionView, s: Stm<
        Arc<Vec<T>>,
    >| #[trigger] pre.reads(tvar, post, s) implies relates_by_a_read(pre, tvar, post, s) by {}
}

/// What a transaction has logged of a vector.
pub open spec fn logs<T: 'static>(tx: TransactionView, tvar: TVar<Vec<T>>, items: Vec<T>) -> bool {
    tx.log.contains_key(tvar.id()) && tx.log[tvar.id()].vvar().value.holds(items)
}

proof fn lemma_cloned_vector<T: Clone>(a: Vec<T>, b: Vec<T>)
    requires
        cloned(a, b),
        forall|x: T, y: T| cloned(x, y) ==> x == y,
    ensures
        a@ == b@,
{
    if a != b {
        assert(call_ensures(Vec::<T>::clone, (&a,), b));
        assert forall|i: int| 0 <= i < a@.len() implies a@[i] == b@[i] by {
            assert(cloned(a@[i], b@[i]));
        }
        assert(a@ =~= b@);
    }
}

/// A queue whose vectors are in the log does what a queue does: where clones are faithful and vectors
/// are plain data, a pop of the item that has been there for longest leaves the others in their
/// order, and takes place exactly if there is an item; otherwise it asks for a retry and changes
/// nothing.
pub proof fn pop_of_logged_vectors<T: Send + Sync + Clone + 'static>(
    queue: &TQueue<T>,
    front: Vec<T>,
    back: Vec<T>,
    r: Stm<T>,
)
    requires
        queue.front().id() != queue.back().id(),
        is_data::<Vec<T>>(),
        forall|x: T, y: T| cloned(x, y) ==> x == y,
    ensures
        forall|tx: &mut Transaction|
            {
                &&& #[trigger] call_ensures(<TQueue<T> as TQueueLike<T>>::read, (queue, tx), r)
                &&& logs((*tx)@, queue.front(), front)
                &&& logs((*tx)@, queue.back(), back)
            } ==> {
                let all = front@.reverse() + back@;
                &&& r is Err <==> all.len() == 0
                &&& r matches Err(e) ==> e == StmControl::Retry && (*final(tx))@ == (*tx)@
                &&& r matches Ok(value) ==> {
                    &&& value == all[0]
                    &&& exists|f: Vec<T>, b: Vec<T>|
                        {
                            &&& #[trigger] logs((*final(tx))@, queue.front(), f)
                            &&& #[trigger] logs((*final(tx))@, queue.back(), b)
                            &&& f@.reverse() + b@ == all.skip(1)
                        }
                }
            },
{
    let all = front@.reverse() + back@;
    assert forall|pre: TransactionView, post: TransactionView, value: T|
        #[trigger] dequeues_front(*queue, pre, post, value) && logs(pre, queue.front(), front)
            && logs(pre, queue.back(), back) implies {
        &&& all.len() > 0
        &&& value == all[0]
        &&& exists|f: Vec<T>, b: Vec<T>|
            {
                &&& #[trigger] logs(post, queue.front(), f)
                &&& #[trigger] logs(post, queue.back(), b)
                &&& f@.reverse() + b@ == all.skip(1)
            }
    } by {
        lemma_takes(*queue, pre, post, value);
        let (mid, to_read, rest) = choose|mid: TransactionView, to_read: Vec<T>, rest: Vec<T>|
            {
                &&& #[trigger] clones_out(pre, queue.front(), mid, to_read)
                &&& to_read@.len() > 0
                &&& value == to_read@.last()
                &&& rest@ == to_read@.drop_last()
                &&& #[trigger] relates_by_a_write(mid, queue.front(), rest, post)
            };
        let x = choose|x: Vec<T>| #[trigger]
            relates_by_a_read(pre, queue.front(), mid, Ok(Arc::new(x))) && cloned(x, to_read);
        assert(x == front);
        lemma_cloned_vector(x, to_read);
        assert(logs(post, queue.front(), rest));
        assert(post.log.contains_key(queue.back().id()) == pre.log.contains_key(queue.back().id()));
        assert(logs(post, queue.back(), back));
        assert(rest@.reverse() + back@ =~= all.skip(1));
    }
    assert forall|pre: TransactionView, post: TransactionView, value: T|
        #[trigger] dequeues_back(*queue, pre, post, value) && logs(pre, queue.front(), front)
            && logs(pre, queue.back(), back) implies {
        &&& all.len() > 0
        &&& value == all[0]
        &&& exists|f: Vec<T>, b: Vec<T>|
            {
                &&& #[trigger] logs(post, queue.front(), f)
                &&& #[trigger] logs(post, queue.back(), b)
                &&& f@.reverse() + b@ == all.skip(1)
            }
    } by {
        lemma_takes(*queue, pre, post, value);
        let (mid, to_read, mid2, written, mid3, rest, none) = choose|
            mid: TransactionView,
            to_read: Vec<T>,
            mid2: TransactionView,
            written: Vec<T>,
            mid3: TransactionView,
            rest: Vec<T>,
            none: Vec<T>,
        |
            {
                &&& #[trigger] clones_out(pre, queue.front(), mid, to_read)
                &&& to_read@.len() == 0
                &&& #[trigger] clones_out(mid, queue.back(), mid2, written)
                &&& written@.len() > 0
                &&& value == written@[0]
                &&& rest@.len() == written@.len() - 1
                &&& forall|i: int|
                    0 <= i < rest@.len() ==> #[trigger] rest@[i] == written@[written@.len() - 1
                        - i]
                &&& #[trigger] relates_by_a_write(mid2, queue.front(), rest, mid3)
                &&& none@.len() == 0
                &&& #[trigger] relates_by_a_write(mid3, queue.back(), none, post)
            };
        let x = choose|x: Vec<T>| #[trigger]
            relates_by_a_read(pre, queue.front(), mid, Ok(Arc::new(x))) && cloned(x, to_read);
        assert(x == front);
        lemma_cloned_vector(x, to_read);
        let y = choose|y: Vec<T>| #[trigger]
            relates_by_a_read(mid, queue.back(), mid2, Ok(Arc::new(y))) && cloned(y, written);
        assert(y == back);
        lemma_cloned_vector(y, written);
        assert(post.log.contains_key(queue.front().id()) == mid3.log.contains_key(
            queue.front().id(),
        ));
        assert(logs(post, queue.front(), rest));
        assert(logs(post, queue.back(), none));
        assert(rest@.reverse() + none@ =~= all.skip(1));
    }
    assert forall|pre: TransactionView, post: TransactionView|
        #[trigger] finds_empty(*queue, pre, post) && logs(pre, queue.front(), front) && logs(
            pre,
            queue.back(),
            back,
        ) implies all.len() == 0 && post == pre by {
        let (mid, to_read, written) = choose|
            mid: TransactionView,
            to_read: Vec<T>,
            written: Vec<T>,
        |
            {
                &&& #[trigger] pre.reads_clone(queue.front(), mid, to_read)
                &&& to_read@.len() == 0
                &&& #[trigger] mid.reads_clone(queue.back(), post, written)
                &&& written@.len() == 0
            };
        let x = choose|x: Vec<T>| #[trigger]
            pre.reads(queue.front(), mid, Ok(Arc::new(x))) && cloned(x, to_read);
        let y = choose|y: Vec<T>| #[trigger]
            mid.reads(queue.back(), post, Ok(Arc::new(y))) && cloned(y, written);
        lemma_cloned_vector(x, to_read);
        lemma_cloned_vector(y, written);
        assert(x == front && y == back);
    }
}

/// A push on a queue whose vectors are in the log adds its value behind all items, does not fail, and
/// leaves the vector that is read from alone.
pub proof fn push_on_logged_vectors<T: Send + Sync + Clone + 'static>(
    queue: &TQueue<T>,
    front: Vec<T>,
    back: Vec<T>,
    value: T,
    r: Stm<()>,
)
    requires
        queue.front().id() != queue.back().id(),
        is_data::<Vec<T>>(),
        forall|x: T, y: T| cloned(x, y) ==> x == y,
    ensures
        forall|tx: &mut Transaction|
            {
                &&& #[trigger] call_ensures(
                    <TQueue<T> as TQueueLike<T>>::write,
                    (queue, tx, value),
                    r,
                )
                &&& logs((*tx)@, queue.front(), front)
                &&& logs((*tx)@, queue.back(), back)
            } ==> {
                &&& r is Ok
                &&& only_touches((*tx)@, (*final(tx))@, queue.back().id())
                &&& logs((*final(tx))@, queue.front(), front)
                &&& exists|b: Vec<T>| #[trigger]
                    logs((*final(tx))@, queue.back(), b) && b@ == back@.push(value)
            },
{
    assert forall|pre: TransactionView, post: TransactionView|
        #[trigger] crate::queues::tqueue::enqueues(*queue, pre, value, post, r) && logs(
            pre,
            queue.front(),
            front,
        ) && logs(pre, queue.back(), back) implies {
        &&& r is Ok
        &&& only_touches(pre, post, queue.back().id())
        &&& logs(post, queue.front(), front)
        &&& exists|b: Vec<T>| #[trigger]
            logs(post, queue.back(), b) && b@ == back@.push(value)
    } by {
        if r is Ok {
            let (mid, written, more) = choose|
                mid: TransactionView,
                written: Vec<T>,
                more: Vec<T>,
            |
                {
                    &&& #[trigger] pre.reads_clone(queue.back(), mid, written)
                    &&& #[trigger] mid.writes(queue.back(), more, post)
                    &&& more@ == written@.push(value)
                };
            let x = choose|x: Vec<T>| #[trigger]
                pre.reads(queue.back(), mid, Ok(Arc::new(x))) && cloned(x, written);
            lemma_cloned_vector(x, written);
            assert(x == back);
            assert(logs(post, queue.back(), more));
        }
    }
}

/// A test of a queue whose vectors are in the log says whether there is no item, and changes nothing.
pub proof fn test_of_logged_vectors<T: Send + Sync + Clone + 'static>(
    queue: &TQueue<T>,
    front: Vec<T>,
    back: Vec<T>,
    r: Stm<bool>,
)
    requires
        is_data::<Vec<T>>(),
    ensures
        forall|tx: &mut Transaction|
            {
                &&& #[trigger] call_ensures(<TQueue<T> as TQueueLike<T>>::is_empty, (queue, tx), r)
                &&& logs((*tx)@, queue.front(), front)
                &&& logs((*tx)@, queue.back(), back)
            } ==> r == Ok::<bool, StmControl>(front@.len() == 0 && back@.len() == 0) && (
            *final(tx))@ == (*tx)@,
{
    assert forall|pre: TransactionView, post: TransactionView|
        #[trigger] tests_empty(*queue, pre, post, r) && logs(pre, queue.front(), front) && logs(
            pre,
            queue.back(),
            back,
        ) implies r == Ok::<bool, StmControl>(front@.len() == 0 && back@.len() == 0) && post
        == pre by {}
}

} // verus!
