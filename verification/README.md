# `kirk`, a highly-flexible thread pool, verified with Verus

Pools are generic not only to the jobs performed, but also to the method for giving jobs to
workers. They may also be scoped, allowing safe access to data in the stack of the originating
thread.

- `src/` is the verified library: jobs and boxed closures (`job.rs`), messages and what workers
  meet with (`message.rs`), the traits `Crew`, `Worker` and `Parameters` (`crew/mod.rs`), the two
  crews (`crew/deque.rs`, `crew/channel.rs`), the queues that they send through (`crew/chase.rs`
  for `crossbeam`'s Chase-Lev deque, `crew/line.rs` for `std::sync::mpsc`), the records of jobs
  performed (`crew/ledger.rs`) and of rests asked for (`crew/rests.rs`), pools (`pool.rs`), and
  what follows for a crew as a whole (`shift.rs`).
- `app/` puts unscoped pools on `std` threads, performs the rests that workers ask for, and stops
  a crew when its pool is dropped.
- `tests/` runs the library.

## What is proved

Contracts speak of records that only the operations themselves extend: everything that a crew
has sent, everything that a worker's attempts to acquire a message came to, every job that a
worker has performed, and every rest that it has asked for, each in order. A worker performs the
jobs that it acquires and no others, each before its next attempt and while every other worker may
acquire messages. It attempts nothing after a `Stop`, and asks for just the rests that its load
calls for. A job that is pushed as it is, rather than as a closure, is the very job that is sent.

From that, `shift.rs` concludes, for every way in which threads may share out the messages of a
queue: the workers acquire each job exactly once; none of them takes a `Stop` before every job
has been taken; and once a closed crew has handed out everything, every job was performed and
every worker has halted. If no message lies about forever while a worker is on duty, a closed
crew with at least one worker does come to that point.

## What is trusted

The contracts of `crossbeam`'s deque and scoped threads, of `num_cpus::get`, and of the parts of
`std` that are used: `mpsc` channels, `Mutex`, and `Duration::from_millis`. Each stands in the
doc comment of the item that makes the call. That a queue hands out its messages in the order in
which they were sent, each to one worker, is a hypothesis of the theorems in `shift.rs`.

A main loop counts its turns, and returns after `u64::MAX` of them even if nothing ended it. It
may then be executed again.
