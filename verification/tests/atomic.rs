use async_stm::auxtx::{Aux, NoAux};
use async_stm::ops::{abort, begin, control, finish, give_up, guard, or, retry, Next};
use async_stm::queues::tqueue::TQueue;
use async_stm::queues::TQueueLike;
use async_stm::transaction::{keep_waiting, with_tx, Transaction, WaitFor};
use async_stm::vars::{IdSource, TVar};
use async_stm::version::{next_version, Clock};
use async_stm::{Stm, StmControl, StmError, StmResult};
use parking_lot::Mutex;
use std::cell::Cell;
use std::sync::Arc;
use std::time::Duration;

/// What has come of one attempt.
enum Attempt<T, E> {
    Done(Result<T, E>),
    Again,
    Wait(WaitFor),
}

/// The clock and the IDs that the transactions of a test share.
struct World {
    clock: Mutex<Clock>,
    ids: Mutex<IdSource>,
}

impl World {
    fn new() -> World {
        World {
            clock: Mutex::new(Clock::new()),
            ids: Mutex::new(IdSource::new()),
        }
    }

    fn tvar<T: Send + Sync + 'static>(&self, value: T) -> TVar<T> {
        TVar::new(&mut self.ids.lock(), value)
    }

    fn attempt<T, E, X: Aux>(
        &self,
        mut atx: X,
        f: impl FnOnce(&mut Transaction, &mut X) -> StmResult<T, E>,
    ) -> Attempt<T, E> {
        let mut running = None;
        begin(&mut running, &self.clock.lock());
        let result = with_tx(&mut running, |tx| f(tx, &mut atx));
        let tx = running.unwrap();
        match result {
            Ok(value) => {
                let clock = || next_version(&mut self.clock.lock());
                match finish(tx, atx, value, clock) {
                    (Some(value), _) => Attempt::Done(Ok(value)),
                    (None, _) => Attempt::Again,
                }
            }
            Err(err) => match give_up(tx, atx, err) {
                Next::Again => Attempt::Again,
                Next::Wait(wait_for) => Attempt::Wait(wait_for),
                Next::Abort(e) => Attempt::Done(Err(e)),
            },
        }
    }

    async fn atomically_or_err_aux<T, E, X: Aux>(
        &self,
        aux: impl Fn() -> X,
        f: impl Fn(&mut Transaction, &mut X) -> StmResult<T, E>,
    ) -> Result<T, E> {
        loop {
            match self.attempt(aux(), &f) {
                Attempt::Done(result) => return result,
                Attempt::Again => {}
                Attempt::Wait(WaitFor::Nothing) => {}
                Attempt::Wait(WaitFor::Signal(mut listener)) => {
                    while keep_waiting(listener.recv().await) {}
                }
                Attempt::Wait(WaitFor::Timeout(timeout)) => tokio::time::sleep(timeout).await,
            }
        }
    }

    async fn atomically<T>(&self, f: impl Fn(&mut Transaction) -> Stm<T>) -> T {
        match self
            .atomically_or_err_aux::<T, (), NoAux>(|| NoAux, |tx, _| control(f(tx)))
            .await
        {
            Ok(value) => value,
            Err(()) => panic!("aborted"),
        }
    }

    /// An atomic operation that has to succeed at the first attempt.
    fn at_once<T>(&self, f: impl FnOnce(&mut Transaction) -> Stm<T>) -> T {
        match self.attempt::<T, (), NoAux>(NoAux, |tx, _| control(f(tx))) {
            Attempt::Done(Ok(value)) => value,
            _ => panic!("not committed"),
        }
    }
}

fn run<T>(future: impl std::future::Future<Output = T>) -> T {
    tokio::runtime::Builder::new_multi_thread()
        .worker_threads(2)
        .enable_time()
        .build()
        .unwrap()
        .block_on(future)
}

#[test]
fn basics() {
    let world = World::new();
    let ta = world.tvar(1);
    let tb = world.tvar(vec![1, 2, 3]);

    let (a0, b0) = run(world.atomically(|tx| {
        let a = ta.read(tx)?;
        let b = tb.read(tx)?;
        let mut b1 = b.as_ref().clone();
        b1.push(4);
        tb.write(tx, b1)?;
        Ok((a, b))
    }));

    assert_eq!(*a0, 1);
    assert_eq!(*b0, vec![1, 2, 3]);

    let b1 = run(world.atomically(|tx| tb.read(tx)));
    assert_eq!(*b1, vec![1, 2, 3, 4]);
}

#[test]
fn conflict_if_written_after_start() {
    let world = World::new();
    let ta = world.tvar(1);
    let attempts = Cell::new(0);

    let a = run(world.atomically(|tx| {
        if attempts.replace(attempts.get() + 1) == 0 {
            world.at_once(|other| ta.update(other, |x| x + 1));
        }
        ta.read(tx)
    }));

    // We have written a between the start of the transaction
    // and the time it read the value, so it should have restarted.
    assert_eq!(*a, 2);
    assert_eq!(attempts.get(), 2);
}

#[test]
fn no_confict_if_read_before_write() {
    let world = World::new();
    let ta = world.tvar(1);
    let attempts = Cell::new(0);

    let a = run(world.atomically(|tx| {
        let a = ta.read(tx)?;
        if attempts.replace(attempts.get() + 1) == 0 {
            world.at_once(|other| ta.update(other, |x| x + 1));
        }
        Ok(a)
    }));

    // Even though the value changed after we have read it
    // we didn't read anything else that changed, so it's a consistent
    // state for the lengthy calculation that followed.
    assert_eq!(*a, 1);
    assert_eq!(attempts.get(), 1);
}

#[test]
fn or_retry_first_return_second() {
    let world = World::new();
    let ta = world.tvar(1);
    let tb = world.tvar("Hello");

    let (a, b) = run(world.atomically(|tx| {
        tb.write(tx, "World")?;
        or(
            tx,
            |tx| {
                ta.write(tx, 2)?;
                retry()
            },
            |tx| Ok((ta.read(tx)?, tb.read(tx)?)),
        )
    }));

    assert_eq!(*a, 1);
    assert_eq!(*b, "World");
}

#[test]
fn retry_wait_notify() {
    let world = Arc::new(World::new());
    let ta = Arc::new(world.tvar(1));

    let a = run(async {
        let (sender, mut receiver) = tokio::sync::mpsc::channel(1);
        let (worldc, tac) = (world.clone(), ta.clone());
        tokio::spawn(async move {
            let a = worldc
                .atomically(|tx| {
                    let a = tac.read(tx)?;
                    guard(*a > 1)?;
                    Ok(a)
                })
                .await;
            sender.send(*a).await.unwrap()
        });

        tokio::time::sleep(Duration::from_millis(250)).await;
        world.atomically(|tx| ta.write(tx, 2)).await;
        tokio::time::timeout(Duration::from_millis(500), receiver.recv())
            .await
            .unwrap()
            .unwrap()
    });

    assert_eq!(a, 2);
}

#[test]
fn new_tvar_in_transaction() {
    let world = World::new();
    let a = run(world.atomically(|tx| {
        let t = world.tvar(1);
        t.write(tx, 2)?;
        t.read(tx)
    }));
    assert_eq!(*a, 2);
}

#[test]
fn nested_atomically() {
    let world = World::new();
    let x = world.tvar(0);

    run(async {
        // A future can be returned from an atomic block to be executed outside of it.
        let a = world
            .atomically(|tx| {
                x.write(tx, 1)?;
                Ok(world.atomically(|tx| x.write(tx, 2)))
            })
            .await;

        assert_eq!(*world.atomically(|tx| x.read(tx)).await, 1);
        a.await;
        assert_eq!(*world.atomically(|tx| x.read(tx)).await, 2);
    });
}

#[test]
fn nested_abort() {
    let world = World::new();
    let r = world.tvar(0);
    let add1 = |x: i32| x + 1;

    fn nested(tx: &mut Transaction, f: impl FnOnce(&mut Transaction) -> Stm<()>) -> Stm<()> {
        or(tx, f, |_| Ok(()))
    }

    let v = run(world.atomically(|tx| {
        assert_eq!(*r.read(tx)?, 0);
        r.update(tx, add1)?;
        assert_eq!(*r.read(tx)?, 1);
        nested(tx, |tx| {
            assert_eq!(*r.read(tx)?, 1);
            r.update(tx, add1)?;
            assert_eq!(*r.read(tx)?, 2);
            retry()
        })?;
        // Back to 1 because of the retry.
        assert_eq!(*r.read(tx)?, 1);
        nested(tx, |tx| {
            assert_eq!(*r.read(tx)?, 1);
            r.update(tx, add1)?;
            assert_eq!(*r.read(tx)?, 2);
            Ok(())
        })?;
        assert_eq!(*r.read(tx)?, 2);
        r.update(tx, add1)?;
        assert_eq!(*r.read(tx)?, 3);
        r.read(tx)
    }));

    assert_eq!(*v, 3);
}

#[derive(Debug, Clone)]
struct TestError;

impl std::fmt::Display for TestError {
    fn fmt(&self, f: &mut std::fmt::Formatter) -> std::fmt::Result {
        f.write_str("test error instance")
    }
}

#[test]
fn abort_with_error() {
    let world = World::new();
    let a = world.tvar(0);

    let r = run(world.atomically_or_err_aux::<(), TestError, NoAux>(
        || NoAux,
        |tx, _| {
            a.write(tx, 1)?;
            abort(TestError)?;
            Ok(())
        },
    ));

    assert_eq!(
        r.err().map(|e| e.to_string()),
        Some("test error instance".to_owned())
    );
    assert_eq!(*world.at_once(|tx| a.read(tx)), 0);
}

#[derive(Clone)]
struct TestAuxDb {
    counter: Arc<Mutex<i32>>,
}

struct TestAuxTx<'a> {
    db: &'a TestAuxDb,
    counter: i32,
    finished: bool,
}

impl TestAuxDb {
    fn new() -> TestAuxDb {
        TestAuxDb {
            counter: Arc::new(Mutex::new(0)),
        }
    }

    fn begin(&self) -> TestAuxTx {
        TestAuxTx {
            db: self,
            counter: *self.counter.lock(),
            finished: false,
        }
    }

    fn counter(&self) -> i32 {
        *self.counter.lock()
    }
}

impl<'a> Aux for TestAuxTx<'a> {
    fn commit(mut self) -> bool {
        *self.db.counter.lock() = self.counter;
        self.finished = true;
        true
    }

    fn rollback(mut self) {
        self.finished = true;
    }
}

impl Drop for TestAuxTx<'_> {
    fn drop(&mut self) {
        if !self.finished {
            panic!("Transaction prematurely dropped. Must call `.commit()` or `.rollback()`.");
        }
    }
}

#[test]
fn aux_commit_rollback() {
    let world = Arc::new(World::new());
    let db = TestAuxDb::new();

    run(world.atomically_or_err_aux::<(), TestError, _>(
        || db.begin(),
        |_, atx| {
            atx.counter = 1;
            abort(TestError)?;
            Ok(())
        },
    ))
    .expect_err("Should be aborted");

    assert_eq!(db.counter(), 0);

    run(world.atomically_or_err_aux::<(), (), _>(
        || db.begin(),
        |_, atx| {
            atx.counter = 1;
            Ok(())
        },
    ))
    .unwrap();

    assert_eq!(db.counter(), 1);

    run(async {
        let ta = world.tvar(42);
        let (worldc, dbc, tac) = (world.clone(), db.clone(), ta.clone());
        let (sender, mut receiver) = tokio::sync::mpsc::unbounded_channel();
        let handle = tokio::spawn(async move {
            worldc
                .atomically_or_err_aux::<(), (), _>(
                    || dbc.begin(),
                    |tx, atx| {
                        let a = tac.read(tx)?;
                        atx.counter += *a;
                        if *a == 42 {
                            // Signal that we are entering the retry.
                            sender.send(()).unwrap();
                            retry()?;
                        }
                        Ok(())
                    },
                )
                .await
                .unwrap();
        });

        let _ = receiver.recv().await;
        assert_eq!(db.counter(), 1);

        // Writing a value to `ta` will trigger the retry.
        world.atomically(|tx| ta.write(tx, 10)).await;
        handle.await.unwrap();
    });

    assert_eq!(db.counter(), 11);
}

#[test]
fn write_and_read_back() {
    let world = World::new();
    let queue: TQueue<i32> = TQueue::new(&mut world.ids.lock());
    let (x, y) = run(world.atomically(|tx| {
        queue.write(tx, 42)?;
        queue.write(tx, 31)?;
        let x = queue.read(tx)?;
        let y = queue.read(tx)?;
        Ok((x, y))
    }));

    assert_eq!(42, x);
    assert_eq!(31, y);
}

#[test]
fn threaded() {
    let world = Arc::new(World::new());
    let queue1: TQueue<i32> = TQueue::new(&mut world.ids.lock());
    let queue2 = queue1.clone();

    let x = run(async {
        let (sender, mut receiver) = tokio::sync::mpsc::unbounded_channel();
        let worldc = world.clone();
        tokio::spawn(async move {
            let x = worldc.atomically(|tx| queue2.read(tx)).await;
            sender.send(x).unwrap();
        });

        tokio::time::sleep(Duration::from_millis(100)).await;
        world.atomically(|tx| queue1.write(tx, 42)).await;
        tokio::time::timeout(Duration::from_millis(500), receiver.recv())
            .await
            .unwrap()
            .unwrap()
    });

    assert_eq!(42, x);
}

#[test]
fn is_empty() {
    let world = World::new();
    let queue: TQueue<i32> = TQueue::default(&mut world.ids.lock());
    assert!(run(world.atomically(|tx| queue.is_empty(tx))));
}

#[test]
fn non_empty() {
    let world = World::new();
    let queue: TQueue<i32> = TQueue::new(&mut world.ids.lock());
    run(world.atomically(|tx| queue.write(tx, 42)));
    assert!(!run(world.atomically(|tx| queue.is_empty(tx))));
}

#[test]
fn queue_is_first_in_first_out_across_transactions() {
    let world = World::new();
    let queue: TQueue<i32> = TQueue::new(&mut world.ids.lock());
    for i in 1..4 {
        world.at_once(|tx| queue.write(tx, i));
    }
    assert_eq!(world.at_once(|tx| queue.read(tx)), 1);
    // The vectors have been swapped; what is written now comes after the rest.
    world.at_once(|tx| queue.write(tx, 4));
    assert!(!world.at_once(|tx| queue.is_empty(tx)));
    assert_eq!(world.at_once(|tx| queue.read(tx)), 2);
    assert_eq!(world.at_once(|tx| queue.read(tx)), 3);
    assert_eq!(world.at_once(|tx| queue.read(tx)), 4);
    assert!(world.at_once(|tx| queue.is_empty(tx)));
    assert!(matches!(
        world.attempt::<i32, (), NoAux>(NoAux, |tx, _| control(queue.read(tx))),
        Attempt::Wait(WaitFor::Signal(_))
    ));
}

#[test]
fn concurrent_increments_are_all_kept() {
    let world = Arc::new(World::new());
    let counter = world.tvar(0u32);
    run(async {
        let mut handles = Vec::new();
        for _ in 0..8 {
            let (worldc, counterc) = (world.clone(), counter.clone());
            handles.push(tokio::spawn(async move {
                for _ in 0..100 {
                    worldc.atomically(|tx| counterc.update(tx, |x| x + 1)).await;
                }
            }));
        }
        for handle in handles {
            handle.await.unwrap();
        }
    });
    assert_eq!(*world.at_once(|tx| counter.read(tx)), 800);
    assert_eq!(world.clock.lock().now, 800);
}

#[test]
fn converts_the_error_of_an_abort() {
    let r: StmResult<(), String> = abort("cause");
    assert!(matches!(r, Err(StmError::Abort(e)) if e == "cause"));
}

/// An auxiliary transaction that records its calls, and refuses the commit of one attempt.
struct Refusing<'a> {
    calls: &'a Mutex<Vec<String>>,
    attempt: usize,
}

impl Aux for Refusing<'_> {
    fn commit(self) -> bool {
        self.calls.lock().push(format!("commit {}", self.attempt));
        self.attempt != 2
    }

    fn rollback(self) {
        self.calls.lock().push(format!("rollback {}", self.attempt));
    }
}

#[test]
fn refused_attempt_leaves_nothing_behind() {
    let world = World::new();
    let x = world.tvar(0);
    let calls = Mutex::new(Vec::new());
    let attempts = Cell::new(0);

    let r = run(world.atomically_or_err_aux::<i32, (), _>(
        || {
            attempts.set(attempts.get() + 1);
            Refusing {
                calls: &calls,
                attempt: attempts.get(),
            }
        },
        |tx, atx| {
            if atx.attempt == 1 {
                return Err(StmControl::Failure.into());
            }
            x.update(tx, |v| v + 1)?;
            Ok(7)
        },
    ));

    assert_eq!(r, Ok(7));
    assert_eq!(attempts.get(), 3);
    assert_eq!(*calls.lock(), vec!["rollback 1", "commit 2", "commit 3"]);
    assert_eq!(*world.at_once(|tx| x.read(tx)), 1);
    assert_eq!(world.clock.lock().now, 1);
}

#[test]
fn push_and_pop_do_not_get_in_each_others_way() {
    let world = World::new();
    let queue: TQueue<i32> = TQueue::new(&mut world.ids.lock());
    for i in 1..4 {
        world.at_once(|tx| queue.write(tx, i));
    }
    // The vectors have been swapped: there is something to pop from the front.
    assert_eq!(world.at_once(|tx| queue.read(tx)), 1);

    let popped = world.at_once(|tx| {
        let popped = queue.read(tx)?;
        world.at_once(|other| queue.write(other, 4));
        Ok(popped)
    });
    assert_eq!(popped, 2);
    assert_eq!(world.at_once(|tx| queue.read(tx)), 3);
    assert_eq!(world.at_once(|tx| queue.read(tx)), 4);
}

#[test]
fn opposite_orders_do_not_wait_for_each_other() {
    let world = Arc::new(World::new());
    let a = world.tvar(0u32);
    let b = world.tvar(0u32);
    run(async {
        let mut handles = Vec::new();
        for i in 0..4 {
            let worldc = world.clone();
            let (x, y) = if i % 2 == 0 {
                (a.clone(), b.clone())
            } else {
                (b.clone(), a.clone())
            };
            handles.push(tokio::spawn(async move {
                for _ in 0..100 {
                    worldc
                        .atomically(|tx| {
                            x.update(tx, |v| v + 1)?;
                            y.update(tx, |v| v + 1)
                        })
                        .await;
                }
            }));
        }
        for handle in handles {
            handle.await.unwrap();
        }
    });
    assert_eq!(*world.at_once(|tx| a.read(tx)), 400);
    assert_eq!(*world.at_once(|tx| b.read(tx)), 400);
}
