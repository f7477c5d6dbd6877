use async_stm::auxtx::{Aux, NoAux};
use async_stm::ops::{begin, control, finish, give_up, guard, or, retry, Next};
use async_stm::transaction::{
    has_updates, keep_waiting, validates, with_tx, Transaction, WaitFor,
};
use async_stm::vars::{keep_accepting, IdSource, TVar, VVar, WaitQueue};
use async_stm::version::{current_version, next_version, Clock};
use async_stm::{Stm, StmControl, StmError};
use std::cell::RefCell;
use std::sync::Arc;
use std::time::Duration;
use tokio::sync::mpsc::unbounded_channel;

/// Commit what `f` does, at once.
fn commit<T>(clock: &mut Clock, f: impl FnOnce(&mut Transaction) -> Stm<T>) -> T {
    let mut tx = Transaction::new(clock);
    let value = f(&mut tx).unwrap();
    let version = tx.commit(NoAux, || next_version(clock)).0.unwrap();
    tx.notify(version);
    value
}

#[test]
fn clock_counts_from_zero() {
    let mut clock = Clock::new();
    assert_eq!(current_version(&clock), 0);
    assert_eq!(next_version(&mut clock), 1);
    assert_eq!(next_version(&mut clock), 2);
    assert_eq!(current_version(&clock), 2);
}

#[test]
fn ids_count_from_zero_and_wrap() {
    let mut ids = IdSource::new();
    assert_eq!(TVar::new(&mut ids, 1u8).id(), 0);
    assert_eq!(TVar::new(&mut ids, 1u8).id(), 1);
    ids.next = u64::MAX;
    assert_eq!(TVar::new(&mut ids, 1u8).id(), u64::MAX);
    assert_eq!(ids.next, 0);
}

#[test]
fn default_variable_holds_default_value() {
    let mut ids = IdSource::new();
    let t: TVar<Vec<u8>> = TVar::default(&mut ids);
    assert_eq!(t.id(), 0);
    let mut tx = Transaction::new(&Clock::new());
    assert_eq!(*t.read(&mut tx).unwrap(), Vec::<u8>::new());
}

#[test]
fn versioned_value_is_downcast() {
    let v = VVar::new(3, String::from("abc"));
    assert_eq!(v.version, 3);
    assert_eq!(*v.downcast::<String>(), "abc");
    let w = v.clone();
    assert_eq!(w.version, 3);
    assert!(Arc::ptr_eq(
        &v.downcast::<String>(),
        &w.downcast::<String>()
    ));
}

#[test]
fn own_write_is_read_back() {
    let mut ids = IdSource::new();
    let mut clock = Clock::new();
    let t = TVar::new(&mut ids, 1);
    let mut tx = Transaction::new(&clock);
    t.write(&mut tx, 2).unwrap();
    commit(&mut clock, |other| t.write(other, 3));
    assert_eq!(*t.read(&mut tx).unwrap(), 2);
}

#[test]
fn second_read_gives_the_same() {
    let mut ids = IdSource::new();
    let mut clock = Clock::new();
    let t = TVar::new(&mut ids, 1);
    let mut tx = Transaction::new(&clock);
    assert_eq!(*t.read(&mut tx).unwrap(), 1);
    commit(&mut clock, |other| t.write(other, 3));
    assert_eq!(*t.read(&mut tx).unwrap(), 1);
    assert_eq!(*t.read(&mut Transaction::new(&clock)).unwrap(), 3);
}

#[test]
fn later_commit_fails_a_read() {
    let mut ids = IdSource::new();
    let mut clock = Clock::new();
    let t = TVar::new(&mut ids, 1);
    let mut tx = Transaction::new(&clock);
    commit(&mut clock, |other| t.write(other, 3));
    assert_eq!(t.read(&mut tx), Err(StmControl::Failure));
    assert_eq!(t.read_clone(&mut tx), Err(StmControl::Failure));
    assert_eq!(t.update(&mut tx, |x| x + 1), Err(StmControl::Failure));
    assert_eq!(t.modify(&mut tx, |x| (x, x)), Err(StmControl::Failure));
    assert_eq!(t.replace(&mut tx, 5), Err(StmControl::Failure));
    // None of these has been logged: there is nothing to commit.
    assert_eq!(tx.commit(NoAux, || panic!("no writes")).0, Some(0));
}

#[test]
fn observed_value_decides_a_read() {
    let mut ids = IdSource::new();
    let t = TVar::new(&mut ids, 1);
    let mut clock = Clock::new();
    clock.now = 7;
    let mut tx = Transaction::new(&clock);
    assert_eq!(
        tx.observe(&t, &VVar::new(8, 20)),
        Err(StmControl::Failure)
    );
    assert_eq!(*tx.observe(&t, &VVar::new(7, 10)).unwrap(), 10);
    assert_eq!(*tx.read(&t).unwrap(), 10);
}

#[test]
fn updates_and_replacements() {
    let mut ids = IdSource::new();
    let t = TVar::new(&mut ids, 1);
    let mut tx = Transaction::new(&Clock::new());
    t.update(&mut tx, |x| x + 4).unwrap();
    assert_eq!(t.read_clone(&mut tx), Ok(5));
    assert_eq!(t.modify(&mut tx, |x| (x * 2, x - 1)), Ok(4));
    assert_eq!(*t.replace(&mut tx, 0).unwrap(), 10);
    assert_eq!(t.read_clone(&mut tx), Ok(0));
}

#[test]
fn commit_stores_everything_under_one_version() {
    let mut ids = IdSource::new();
    let mut clock = Clock::new();
    let a = TVar::new(&mut ids, 1);
    let b = TVar::new(&mut ids, String::from("x"));
    let mut tx = Transaction::new(&clock);
    a.write(&mut tx, 2).unwrap();
    b.write(&mut tx, String::from("y")).unwrap();
    let mut early = Transaction::new(&clock);
    assert_eq!(tx.commit(NoAux, || next_version(&mut clock)).0, Some(1));
    // A transaction that started before sees neither, one that starts after sees both.
    assert_eq!(a.read(&mut early), Err(StmControl::Failure));
    assert_eq!(b.read(&mut early), Err(StmControl::Failure));
    let mut late = Transaction::new(&clock);
    assert_eq!(*a.read(&mut late).unwrap(), 2);
    assert_eq!(*b.read(&mut late).unwrap(), "y");
}

struct Recorded<'a>(&'a RefCell<Vec<&'static str>>, bool);

impl Aux for Recorded<'_> {
    fn commit(self) -> bool {
        self.0.borrow_mut().push("commit");
        self.1
    }

    fn rollback(self) {
        self.0.borrow_mut().push("rollback");
    }
}

#[test]
fn conflict_rolls_back() {
    let mut ids = IdSource::new();
    let mut clock = Clock::new();
    let a = TVar::new(&mut ids, 1);
    let b = TVar::new(&mut ids, 1);
    let calls = RefCell::new(Vec::new());
    let mut tx = Transaction::new(&clock);
    a.read(&mut tx).unwrap();
    b.write(&mut tx, 5).unwrap();
    commit(&mut clock, |other| a.write(other, 2));
    let r = tx.commit(Recorded(&calls, true), || panic!("conflict")).0;
    assert_eq!(r, None);
    assert_eq!(*calls.borrow(), vec!["rollback"]);
    assert_eq!(b.read_clone(&mut Transaction::new(&clock)), Ok(1));
}

#[test]
fn blind_write_is_in_conflict_with_a_later_commit() {
    let mut ids = IdSource::new();
    let mut clock = Clock::new();
    let a = TVar::new(&mut ids, 1);
    let mut tx = Transaction::new(&clock);
    a.write(&mut tx, 5).unwrap();
    commit(&mut clock, |other| a.write(other, 2));
    assert_eq!(tx.commit(NoAux, || panic!("conflict")).0, None);
    assert_eq!(a.read_clone(&mut Transaction::new(&clock)), Ok(2));
}

#[test]
fn auxiliary_transaction_can_refuse() {
    let mut ids = IdSource::new();
    let clock = Clock::new();
    let a = TVar::new(&mut ids, 1);
    let calls = RefCell::new(Vec::new());
    let mut tx = Transaction::new(&clock);
    a.write(&mut tx, 5).unwrap();
    let r = tx.commit(Recorded(&calls, false), || panic!("refused")).0;
    assert_eq!(r, None);
    assert_eq!(*calls.borrow(), vec!["commit"]);
    assert_eq!(a.read_clone(&mut Transaction::new(&clock)), Ok(1));
}

#[test]
fn read_only_transaction_commits_under_its_start() {
    let mut ids = IdSource::new();
    let mut clock = Clock::new();
    let a = TVar::new(&mut ids, 1);
    commit(&mut clock, |other| a.write(other, 2));
    let mut tx = Transaction::new(&clock);
    assert_eq!(a.read_clone(&mut tx), Ok(2));
    commit(&mut clock, |other| a.write(other, 3));
    assert_eq!(tx.commit(NoAux, || panic!("no writes")).0, Some(1));
}

#[test]
fn guard_retries_unless_the_condition_is_met() {
    assert_eq!(guard(true), Ok(()));
    assert_eq!(guard(false), Err(StmControl::Retry));
    assert_eq!(retry::<u8>(), Err(StmControl::Retry));
}

#[test]
fn control_never_aborts() {
    assert!(matches!(control::<u8, u8>(Ok(3)), Ok(3)));
    assert!(matches!(
        control::<u8, u8>(Err(StmControl::Retry)),
        Err(StmError::Control(StmControl::Retry))
    ));
    let e: StmError<u8> = StmControl::Failure.into();
    assert!(matches!(e, StmError::Control(StmControl::Failure)));
}

#[test]
fn failure_of_the_first_alternative_is_returned() {
    let mut ids = IdSource::new();
    let mut clock = Clock::new();
    let a = TVar::new(&mut ids, 1);
    let mut tx = Transaction::new(&clock);
    commit(&mut clock, |other| a.write(other, 2));
    let r = or(&mut tx, |tx| a.read(tx), |_| panic!("not run"));
    assert_eq!(r, Err(StmControl::Failure));
}

#[test]
fn retry_of_both_alternatives_watches_both() {
    let mut ids = IdSource::new();
    let mut clock = Clock::new();
    let a = TVar::new(&mut ids, 1);
    let b = TVar::new(&mut ids, 1);
    let mut tx = Transaction::new(&clock);
    let r: Stm<()> = or(
        &mut tx,
        |tx| {
            a.read(tx)?;
            retry()
        },
        |tx| {
            b.read(tx)?;
            retry()
        },
    );
    assert_eq!(r, Err(StmControl::Retry));
    let mut listener = match tx.subscribe() {
        WaitFor::Signal(listener) => listener,
        _ => panic!("nothing to listen to"),
    };
    assert!(listener.try_recv().is_err());
    commit(&mut clock, |other| a.write(other, 2));
    assert_eq!(listener.try_recv(), Ok(true));
    commit(&mut clock, |other| b.write(other, 2));
    assert_eq!(listener.try_recv(), Ok(true));
}

#[test]
fn writes_of_a_retried_alternative_are_undone() {
    let mut ids = IdSource::new();
    let mut clock = Clock::new();
    let a = TVar::new(&mut ids, 1);
    let x = commit(&mut clock, |tx| {
        or(
            tx,
            |tx| {
                a.write(tx, 9)?;
                retry()
            },
            |tx| a.read_clone(tx),
        )
    });
    assert_eq!(x, 1);
    assert_eq!(a.read_clone(&mut Transaction::new(&clock)), Ok(1));
}

#[test]
fn nothing_to_wait_for_after_a_commit() {
    let mut ids = IdSource::new();
    let mut clock = Clock::new();
    let a = TVar::new(&mut ids, 1);
    let mut tx = Transaction::new(&clock);
    a.read(&mut tx).unwrap();
    commit(&mut clock, |other| a.write(other, 2));
    assert!(matches!(tx.subscribe(), WaitFor::Nothing));
}

#[test]
fn without_reads_there_is_a_timeout() {
    let mut ids = IdSource::new();
    let a = TVar::new(&mut ids, 1);
    let mut tx = Transaction::new(&Clock::new());
    a.write(&mut tx, 2).unwrap();
    assert!(
        matches!(tx.subscribe(), WaitFor::Timeout(t) if t == Duration::from_secs(60))
    );
    tx.empty_retry_wait_timeout = Duration::from_millis(5);
    assert!(
        matches!(tx.subscribe(), WaitFor::Timeout(t) if t == Duration::from_millis(5))
    );
}

#[test]
fn only_a_pruning_attempt_is_ignored() {
    assert!(keep_waiting(Some(false)));
    assert!(!keep_waiting(Some(true)));
    assert!(!keep_waiting(None));
}

#[test]
fn queue_signals_everyone_once() {
    let mut queue = WaitQueue::new();
    let (s1, mut l1) = unbounded_channel();
    let (s2, mut l2) = unbounded_channel();
    queue.add(s1);
    queue.add(s2);
    assert_eq!(queue.last_written_version(), 0);
    queue.notify_all(4);
    assert_eq!(queue.last_written_version, 4);
    assert_eq!(queue.last_written_version(), 4);
    assert_eq!(l1.try_recv(), Ok(true));
    assert_eq!(l2.try_recv(), Ok(true));
    queue.notify_all(5);
    // The signalers are gone, so nothing more can come.
    assert!(l1.try_recv().is_err());
    assert_eq!(queue.last_written_version, 5);
}

#[test]
fn queue_prunes_at_a_new_record() {
    let mut queue = WaitQueue::default();
    let (s1, l1) = unbounded_channel();
    let (s2, mut l2) = unbounded_channel();
    let (s3, mut l3) = unbounded_channel();
    let (s4, mut l4) = unbounded_channel();
    queue.add(s1);
    queue.add(s2);
    // Two wait, the record is one: the third to come has the others pruned.
    drop(l1);
    queue.add(s3);
    assert_eq!(l2.try_recv(), Ok(false));
    assert!(l3.try_recv().is_err());
    // Two wait again, the record is one still.
    queue.add(s4);
    assert_eq!(l2.try_recv(), Ok(false));
    assert_eq!(l3.try_recv(), Ok(false));
    queue.notify_all(1);
    assert_eq!(l2.try_recv(), Ok(true));
    assert_eq!(l3.try_recv(), Ok(true));
    assert_eq!(l4.try_recv(), Ok(true));
}

#[test]
fn accepting_signalers_are_kept_in_order() {
    let (s1, _l1) = unbounded_channel();
    let (s2, _l2) = unbounded_channel();
    let (s3, _l3) = unbounded_channel();
    let all = vec![s1.clone(), s2, s3.clone()];
    let kept = keep_accepting(all, &vec![true, false, true]);
    assert_eq!(kept.len(), 2);
    assert!(kept[0].same_channel(&s1));
    assert!(kept[1].same_channel(&s3));
}

#[test]
fn attempts_are_given_up() {
    let mut ids = IdSource::new();
    let clock = Clock::new();
    let a = TVar::new(&mut ids, 1);
    let calls = RefCell::new(Vec::new());

    let mut tx = Transaction::new(&clock);
    a.write(&mut tx, 2).unwrap();
    let failed: StmError<u8> = StmError::Control(StmControl::Failure);
    let r = give_up(tx, Recorded(&calls, true), failed);
    assert!(matches!(r, Next::Again));

    let mut tx = Transaction::new(&clock);
    a.read(&mut tx).unwrap();
    let retried: StmError<u8> = StmError::Control(StmControl::Retry);
    let r = give_up(tx, Recorded(&calls, true), retried);
    assert!(matches!(r, Next::Wait(WaitFor::Signal(_))));

    let mut tx = Transaction::new(&clock);
    a.write(&mut tx, 2).unwrap();
    let r = give_up(tx, Recorded(&calls, true), StmError::Abort(7));
    assert!(matches!(r, Next::Abort(7)));

    assert_eq!(*calls.borrow(), vec!["rollback", "rollback", "rollback"]);
    let mut after = Transaction::new(&clock);
    assert_eq!(a.read_clone(&mut after), Ok(1));
}

#[test]
fn attempts_are_finished() {
    let mut ids = IdSource::new();
    let mut clock = Clock::new();
    let a = TVar::new(&mut ids, 1);
    let calls = RefCell::new(Vec::new());

    let mut running = None;
    begin(&mut running, &clock);
    let done = with_tx(&mut running, |tx| {
        a.write(tx, 2)?;
        a.read_clone(tx)
    });
    let (value, unused) = finish(
        running.unwrap(),
        Recorded(&calls, true),
        done.unwrap(),
        || next_version(&mut clock),
    );
    assert_eq!(value, Some(2));
    assert!(unused.is_none());
    assert_eq!(*calls.borrow(), vec!["commit"]);
    assert_eq!(clock.now, 1);

    // One that is refused hands the clock back.
    let mut tx = Transaction::new(&clock);
    a.write(&mut tx, 3).unwrap();
    let (value, unused) = finish(tx, Recorded(&calls, false), 3, || next_version(&mut clock));
    assert_eq!(value, None);
    assert!(unused.is_some());
    drop(unused);
    assert_eq!(clock.now, 1);
    assert_eq!(a.read_clone(&mut Transaction::new(&clock)), Ok(2));

    // So does one that has only read.
    let mut tx = Transaction::new(&clock);
    a.read(&mut tx).unwrap();
    let (value, unused) = finish(tx, NoAux, 4, || next_version(&mut clock));
    assert_eq!(value, Some(4));
    assert!(unused.is_some());
}

#[test]
fn late_notification_does_not_hide_a_later_commit() {
    let mut queue = WaitQueue::new();
    queue.notify_all(6);
    queue.notify_all(5);
    assert_eq!(queue.last_written_version, 6);
    assert!(has_updates(&vec![queue.last_written_version()], 5));

    let mut ids = IdSource::new();
    let mut clock = Clock::new();
    let a = TVar::new(&mut ids, 0);
    let mut first = Transaction::new(&clock);
    a.write(&mut first, 1).unwrap();
    let v1 = first.commit(NoAux, || next_version(&mut clock)).0.unwrap();
    let mut waiting = Transaction::new(&clock);
    assert_eq!(a.read_clone(&mut waiting), Ok(1));
    let mut second = Transaction::new(&clock);
    a.write(&mut second, 2).unwrap();
    let v2 = second.commit(NoAux, || next_version(&mut clock)).0.unwrap();
    second.notify(v2);
    first.notify(v1);
    assert!(matches!(waiting.subscribe(), WaitFor::Nothing));
}

#[test]
fn updates_are_seen_above_the_start() {
    assert!(!has_updates(&vec![], 0));
    assert!(!has_updates(&vec![3, 1, 3], 3));
    assert!(has_updates(&vec![3, 4, 3], 3));
}

#[test]
fn observed_versions_decide_a_commit() {
    let mut ids = IdSource::new();
    let mut clock = Clock::new();
    clock.now = 7;
    let a = TVar::new(&mut ids, 1);
    let b = TVar::new(&mut ids, 1);
    let mut tx = Transaction::new(&clock);
    // `a` is logged under version 0, which it was read with, and `b` under the start.
    a.read(&mut tx).unwrap();
    b.write(&mut tx, 2).unwrap();
    let entries = tx.entries();
    assert!(validates(&entries, &vec![0, 7]));
    assert!(validates(&entries, &vec![0, 0]));
    assert!(!validates(&entries, &vec![1, 7]));
    assert!(!validates(&entries, &vec![0, 8]));
    assert!(!validates(&entries, &vec![0]));
}

#[test]
fn stale_read_is_refused() {
    let mut ids = IdSource::new();
    let mut clock = Clock::new();
    let a = TVar::new(&mut ids, 1);
    let b = TVar::new(&mut ids, 10);
    let mut t = Transaction::new(&clock);
    assert_eq!(t.read(&a), Ok(Arc::new(1)));
    assert_eq!(t.write(&b, 20), Ok(()));
    let mut u = Transaction::new(&clock);
    assert_eq!(u.write(&a, 2), Ok(()));
    assert_eq!(u.commit(NoAux, || next_version(&mut clock)).0, Some(1));
    assert_eq!(t.commit(NoAux, || panic!("conflict")).0, None);
    let mut after = Transaction::new(&clock);
    assert_eq!(b.read_clone(&mut after), Ok(10));
    assert_eq!(a.read_clone(&mut after), Ok(2));
    assert_eq!(clock.now, 1);
}

#[test]
fn first_committer_wins() {
    let mut ids = IdSource::new();
    let mut clock = Clock::new();
    let x = TVar::new(&mut ids, 0);
    let mut t1 = Transaction::new(&clock);
    let mut t2 = Transaction::new(&clock);
    x.update(&mut t1, |v| v + 1).unwrap();
    x.update(&mut t2, |v| v + 1).unwrap();
    assert_eq!(t2.commit(NoAux, || next_version(&mut clock)).0, Some(1));
    assert_eq!(t1.commit(NoAux, || panic!("conflict")).0, None);
    assert_eq!(x.read_clone(&mut Transaction::new(&clock)), Ok(1));
}

#[test]
fn only_what_was_read_is_watched() {
    let mut ids = IdSource::new();
    let mut clock = Clock::new();
    let a = TVar::new(&mut ids, 1);
    let b = TVar::new(&mut ids, 1);
    let mut tx = Transaction::new(&clock);
    a.read(&mut tx).unwrap();
    b.write(&mut tx, 2).unwrap();
    let mut listener = match tx.subscribe() {
        WaitFor::Signal(listener) => listener,
        _ => panic!("nothing to listen to"),
    };
    commit(&mut clock, |other| b.write(other, 3));
    assert!(listener.try_recv().is_err());
    commit(&mut clock, |other| a.write(other, 3));
    assert_eq!(listener.try_recv(), Ok(true));
    // That was the only signaler.
    commit(&mut clock, |other| a.write(other, 4));
    assert!(listener.try_recv().is_err());
}

#[test]
fn retry_is_neutral_and_or_is_associative() {
    let mut ids = IdSource::new();
    let a = TVar::new(&mut ids, 1);
    let clock = Clock::new();
    let mut tx = Transaction::new(&clock);
    assert_eq!(or(&mut tx, |_| retry(), |tx| a.read_clone(tx)), Ok(1));
    assert_eq!(or(&mut tx, |tx| a.read_clone(tx), |_| retry()), Ok(1));
    let left = or(
        &mut tx,
        |tx| or(tx, |_| retry(), |_| retry()),
        |tx| a.read_clone(tx),
    );
    let right = or(
        &mut tx,
        |_| retry(),
        |tx| or(tx, |_| retry(), |tx| a.read_clone(tx)),
    );
    assert_eq!(left, Ok(1));
    assert_eq!(right, Ok(1));
}

#[test]
fn update_and_replace_act_as_a_modify() {
    let mut ids = IdSource::new();
    let a = TVar::new(&mut ids, 1);
    let b = TVar::new(&mut ids, 1);
    let mut tx = Transaction::new(&Clock::new());
    a.update(&mut tx, |x| x + 4).unwrap();
    b.modify(&mut tx, |x| (x + 4, ())).unwrap();
    assert_eq!(a.read_clone(&mut tx), b.read_clone(&mut tx));
    let replaced = a.replace(&mut tx, 9).unwrap();
    let modified = b.modify(&mut tx, |x| (9, x)).unwrap();
    assert_eq!(*replaced, modified);
    assert_eq!(a.read_clone(&mut tx), b.read_clone(&mut tx));
}

#[test]
fn update_may_access_other_variables() {
    let mut ids = IdSource::new();
    let a = TVar::new(&mut ids, 1);
    let b = TVar::new(&mut ids, 10);
    let mut tx = Transaction::new(&Clock::new());
    let r = a.modify_with(&mut tx, |tx, x| {
        b.update(tx, |y| y + x).unwrap();
        (x + 1, b.read_clone(tx).unwrap())
    });
    assert_eq!(r, Ok(11));
    assert_eq!(a.read_clone(&mut tx), Ok(2));
    assert_eq!(b.read_clone(&mut tx), Ok(11));
}
