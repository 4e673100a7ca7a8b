//! Pools of generic crews that perform generic jobs, statically or dynamically.
//!
//! # Pools
//!
//! With fewest restrictions, a pool could run any task.
//!
//! ```
//! use kirk::{Deque, Pool, Task, Worker};
//! use kirk::crew::deque::Options;
//! use kirk::crew::Rests;
//!
//! let options = Options::default();
//! let (mut pool, mut workers) = Pool::<Deque<Task>>::new(options);
//! pool.push(|| { println!("Hello!") });
//! pool.push(|| { println!("World!") });
//! pool.close();
//! for worker in workers.iter_mut() {
//!     worker.run(&mut Rests::new(|_| {}));
//! }
//! ```
//!
//! A pool does not put its workers on threads by itself, unless it is scoped: each of the
//! workers that `Pool::new` returns is meant for a thread of its own. Neither does a worker
//! pause by itself: its main loop hands the [`Rest`](crew::Rest) that it asks for to a function
//! that its caller chooses.
//!
//! # Crews
//!
//! Crews abstract the method of sending jobs to workers. `Deque` lets the workers steal from a
//! shared deque, `Channel` lets them take turns at the end of a channel. The goal is to support
//! various methods for different workloads, while making it easy to switch from one to another.
//!
//! # Jobs and Tasks
//!
//! The core abstraction is `Job`, which has a single, consuming method, `perform`. Defining a
//! data structure that implements `Job` allows worker threads to statically dispatch the call to
//! `perform`. There is a predefined type `Task`, a boxed closure, which allows arbitary jobs to
//! be pushed to a pool, but with added costs both to construct the box and to call each
//! dynamically.
//!
//! # Scoping
//!
//! Using `crossbeam::scope`, jobs can safely access data on the stack of the original caller,
//! like so:
//!
//! ```
//! let mut items = [0usize; 8];
//! crossbeam::scope(|scope| {
//!     let options = kirk::crew::deque::Options::default();
//!     let mut pool = kirk::Pool::<kirk::Deque<kirk::Task>>::scoped(&scope, options, |_| {});
//!     for (i, e) in items.iter_mut().enumerate() {
//!         pool.push(move || *e = i)
//!     }
//!     pool.close();
//! });
//! ```
//!
//! # What is proved
//!
//! What the crews and workers do stands in their contracts, over records that only the
//! operations themselves extend. What follows for a crew as a whole,
//! that a closed crew performs every job and then halts, stands in [`shift`].

pub mod crew;
pub mod job;
pub mod message;
pub mod pool;
pub mod shift;

pub use crew::channel::Channel;
pub use crew::deque::Deque;
pub use crew::{Crew, Parameters, Worker};
pub use job::{Job, Task};
pub use message::{Event, Message};
pub use pool::Pool;
