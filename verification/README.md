# async-stm

Software transactional memory, with its logic verified by Verus.

* A transaction reads and writes `TVar`s through a log of its own. Reading a `TVar` returns an
  `Arc`, so cloning can be delayed until the result has to be modified.
* `retry` abandons an attempt until one of the variables it read has changed; `or` offers an
  alternative; `abort` ends the whole operation with an error, which the caller has to handle.
* A commit takes the locks of all variables in the log, in the order of their IDs, checks that none
  of them has been written since, commits the auxiliary transaction, and stores everything under one
  version of the clock.
* An auxiliary transaction can be committed or rolled back together with the STM transaction. It can
  also cause a retry if it detects some conflict of its own.
* `TQueue` is a transactional queue.

## Layout

* `src/` is the library.
  * `version.rs`: the clock.
  * `value.rs`: values whose type is out of sight.
  * `locks.rs`, `channel.rs`: what is taken from `parking_lot` and `tokio`, and what is believed of it;
    the locks that a commit holds, and the wait queues that a wait or a wake-up holds.
  * `vars.rs`: variables, wait queues, and what the log keeps of a variable.
  * `transaction.rs`: the transaction, from the first read to the commit, the wake-ups and the wait.
  * `ops.rs`: the verbs, and the end of an attempt.
  * `auxtx.rs`: auxiliary transactions.
  * `queues/`: transactional queues.
  * `laws.rs`: what holds of all this together.
* `app/` runs atomic operations on `tokio`: it keeps the clock and the source of IDs of the program
  and the transaction of each thread, repeats attempts, and waits.
* `tests/` runs the library.
