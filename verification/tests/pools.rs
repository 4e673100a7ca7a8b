use kirk::crew::{channel, deque, Rest, Rests};
use kirk::{Channel, Crew, Deque, Job, Pool, Task, Worker};
use std::sync::mpsc;
use std::sync::Mutex;
use std::time::Duration;

fn nap(rest: Rest) {
    if rest != Rest::Skip {
        std::hint::spin_loop();
    }
}

fn deque_options(num_workers: usize) -> deque::Options {
    deque::Options {
        retry_threshold: 2,
        cold_interval: Duration::from_millis(1),
        num_workers,
    }
}

fn channel_options(num_workers: usize) -> channel::Options {
    channel::Options { num_workers }
}

#[test]
fn it_works() {
    const ITEMS: usize = 100_000;
    let mut results = std::iter::repeat((0, 0)).take(ITEMS).collect::<Vec<_>>();

    let options = deque::Options::default();
    crossbeam::scope(|scope| {
        let mut pool = Pool::<Deque<Task>>::scoped(&scope, options, nap);
        for (i, result) in results.iter_mut().enumerate() {
            pool.push(move || {
                *result = (i, i + 1);
            });
        }
        pool.close();
    });

    for (i, j) in results {
        assert_eq!(j, i + 1);
    }
}

const STUFF: [u8; 128] = [0; 128];

#[test]
fn static_works() {
    let mut seen = 0;
    crossbeam::scope(|scope| {
        let options = deque::Options::default();
        let (mut pool, workers) = Pool::<Deque<Task>>::new(options);
        assert_eq!(workers.len(), options.num_workers);
        for mut worker in workers {
            scope.spawn(move || worker.run(&mut Rests::new(nap)));
        }
        let rx = {
            let (tx, rx) = mpsc::channel();
            for x in STUFF.iter() {
                let tx = tx.clone();
                pool.push(move || {
                    tx.send(*x + 1).unwrap();
                    drop(tx);
                })
            }
            rx
        };
        pool.close();
        for y in rx.iter() {
            assert_eq!(y, 1);
            seen += 1;
        }
    });
    assert_eq!(seen, 128);
}

#[test]
fn a_scoped_channel_pool_works() {
    let mut results = vec![(0, 0); 10_000];

    crossbeam::scope(|scope| {
        let options = channel::Options::default();
        let mut pool = Pool::<Channel<Task>>::scoped(&scope, options, nap);
        for (i, result) in results.iter_mut().enumerate() {
            pool.push(move || *result = (i, i + 1));
        }
        pool.close();
    });

    for (k, (i, j)) in results.into_iter().enumerate() {
        assert_eq!((i, j), (k, k + 1));
    }
}

enum Msg {
    Hello(mpsc::Sender<&'static str>),
    World(mpsc::Sender<&'static str>),
}

impl Job for Msg {
    fn perform(self) {
        match self {
            Msg::Hello(tx) => tx.send("Hello!").unwrap(),
            Msg::World(tx) => tx.send("World!").unwrap(),
        }
    }
}

#[test]
fn jobs_are_dispatched_statically() {
    let (tx, rx) = mpsc::channel();
    let (mut pool, mut workers) = Pool::<Deque<Msg>>::new(deque_options(1));
    pool.push(Msg::Hello(tx.clone()));
    pool.push(Msg::World(tx));
    pool.close();
    assert!(workers[0].run(&mut Rests::new(nap)));
    assert_eq!(rx.iter().collect::<Vec<_>>(), vec!["Hello!", "World!"]);
}

struct Work<'a> {
    i: usize,
    e: &'a mut usize,
}

impl<'a> Job for Work<'a> {
    fn perform(self) {
        *self.e = self.i;
    }
}

#[test]
fn static_jobs_reach_the_stack_of_their_scope() {
    let mut items = [0usize; 8];
    crossbeam::scope(|scope| {
        let options = deque::Options::default();
        let mut pool = Pool::<Deque<Work>>::scoped(&scope, options, nap);
        for (i, e) in items.iter_mut().enumerate() {
            pool.push(Work { i, e });
        }
        pool.close();
    });
    assert_eq!(items, [0, 1, 2, 3, 4, 5, 6, 7]);
}

#[test]
fn outstanding_jobs_are_done_in_order_before_a_deque_worker_halts() {
    let done = Mutex::new(Vec::new());
    let (mut pool, mut workers) = Pool::<Deque<Task>>::new(deque_options(3));
    assert_eq!(workers.len(), 3);
    for i in 0..1000 {
        let done = &done;
        pool.push(move || done.lock().unwrap().push(i));
    }
    pool.close();
    assert!(workers[1].run(&mut Rests::new(nap)));
    assert_eq!(*done.lock().unwrap(), (0..1000).collect::<Vec<_>>());
    assert!(workers[0].run(&mut Rests::new(nap)));
    assert!(workers[2].run(&mut Rests::new(nap)));
    assert_eq!(done.lock().unwrap().len(), 1000);
}

#[test]
fn outstanding_jobs_are_done_in_order_before_a_channel_worker_halts() {
    let done = Mutex::new(Vec::new());
    let (mut pool, mut workers) = Pool::<Channel<Task>>::new(channel_options(3));
    assert_eq!(workers.len(), 3);
    for i in 0..1000 {
        let done = &done;
        pool.push(move || done.lock().unwrap().push(i));
    }
    pool.close();
    assert!(workers[1].run(&mut Rests::new(nap)));
    assert_eq!(*done.lock().unwrap(), (0..1000).collect::<Vec<_>>());
    assert!(workers[0].run(&mut Rests::new(nap)));
    assert!(workers[2].run(&mut Rests::new(nap)));
    assert_eq!(done.lock().unwrap().len(), 1000);
}

#[test]
fn every_worker_of_a_closed_pool_halts() {
    let done = Mutex::new(vec![0; 500]);
    let halted = Mutex::new(0);
    crossbeam::scope(|scope| {
        let (mut pool, workers) = Pool::<Deque<Task>>::new(deque_options(4));
        for mut worker in workers {
            let halted = &halted;
            scope.spawn(move || {
                if worker.run(&mut Rests::new(nap)) {
                    *halted.lock().unwrap() += 1;
                }
            });
        }
        for i in 0..500 {
            let done = &done;
            pool.push(move || done.lock().unwrap()[i] += 1);
        }
        pool.close();
    });
    assert_eq!(*halted.lock().unwrap(), 4);
    assert_eq!(*done.lock().unwrap(), vec![1; 500]);
}

#[test]
fn a_channel_worker_halts_when_its_crew_is_gone() {
    let done = Mutex::new(0);
    let mut crew = Channel::<Task>::new(channel_options(1));
    let mut worker = crew.hire();
    crew.give(|| *done.lock().unwrap() += 1);
    drop(crew);
    assert!(worker.run(&mut Rests::new(nap)));
    assert_eq!(*done.lock().unwrap(), 1);
}

#[test]
fn a_pool_without_workers_keeps_its_jobs() {
    let done = Mutex::new(0);
    let (mut pool, workers) = Pool::<Deque<Task>>::new(deque_options(0));
    assert!(workers.is_empty());
    pool.push(|| *done.lock().unwrap() += 1);
    pool.close();
    drop(pool);
    assert_eq!(*done.lock().unwrap(), 0);
}

#[test]
fn a_crew_may_hire_more_workers_than_it_stops() {
    let done = Mutex::new(0);
    let mut crew = Deque::<Task>::new(deque_options(1));
    let mut first = crew.hire();
    let mut second = crew.hire();
    crew.give(|| *done.lock().unwrap() += 1);
    crew.stop();
    assert!(first.run(&mut Rests::new(nap)));
    crew.give(|| *done.lock().unwrap() += 1);
    crew.stop();
    assert!(second.run(&mut Rests::new(nap)));
    assert_eq!(*done.lock().unwrap(), 2);
}

#[test]
fn a_task_calls_its_closure_once() {
    let done = Mutex::new(0);
    let task = Task::from(|| *done.lock().unwrap() += 1);
    assert_eq!(*done.lock().unwrap(), 0);
    task.perform();
    assert_eq!(*done.lock().unwrap(), 1);
}

fn note(log: &Mutex<Vec<char>>, letter: char) -> Task<'_> {
    Task::from(move || log.lock().unwrap().push(letter))
}

#[test]
fn a_channel_worker_leaves_what_is_behind_its_stop() {
    let log = Mutex::new(Vec::new());
    let mut crew = Channel::<Task>::new(channel_options(1));
    let mut worker = crew.hire();
    crew.give(note(&log, 'a'));
    crew.give(note(&log, 'b'));
    crew.stop();
    crew.give(note(&log, 'c'));
    assert!(worker.run(&mut Rests::new(nap)));
    assert_eq!(*log.lock().unwrap(), vec!['a', 'b']);
    let mut other = crew.hire();
    drop(crew);
    assert!(other.run(&mut Rests::new(nap)));
    assert_eq!(*log.lock().unwrap(), vec!['a', 'b', 'c']);
}

#[test]
fn a_channel_worker_performs_what_was_queued_before_its_crew_was_dropped() {
    let log = Mutex::new(Vec::new());
    let mut crew = Channel::<Task>::new(channel_options(1));
    let mut worker = crew.hire();
    crew.give(note(&log, 'a'));
    crew.give(note(&log, 'b'));
    drop(crew);
    assert!(worker.run(&mut Rests::new(nap)));
    assert_eq!(*log.lock().unwrap(), vec!['a', 'b']);
}

#[test]
fn each_run_of_a_channel_worker_takes_one_stop() {
    let log = Mutex::new(Vec::new());
    let mut crew = Channel::<Task>::new(channel_options(2));
    let mut first = crew.hire();
    let mut second = crew.hire();
    crew.give(note(&log, 'a'));
    crew.stop();
    assert!(first.run(&mut Rests::new(nap)));
    assert!(second.run(&mut Rests::new(nap)));
    assert_eq!(*log.lock().unwrap(), vec!['a']);
}

#[test]
fn a_deque_worker_leaves_what_is_behind_its_stop() {
    let log = Mutex::new(Vec::new());
    let mut crew = Deque::<Task>::new(deque::Options {
        retry_threshold: 0,
        cold_interval: Duration::from_millis(0),
        num_workers: 1,
    });
    let mut worker = crew.hire();
    crew.give(note(&log, 'a'));
    crew.give(note(&log, 'b'));
    crew.stop();
    crew.give(note(&log, 'c'));
    assert!(worker.run(&mut Rests::new(nap)));
    assert_eq!(*log.lock().unwrap(), vec!['a', 'b']);
    assert_eq!(worker.wait(), Rest::Skip);
    let mut other = crew.hire();
    crew.stop();
    assert!(other.run(&mut Rests::new(nap)));
    assert_eq!(*log.lock().unwrap(), vec!['a', 'b', 'c']);
}

#[test]
fn every_worker_of_a_closed_channel_pool_halts() {
    let done = Mutex::new(vec![0; 500]);
    let halted = Mutex::new(0);
    crossbeam::scope(|scope| {
        let (mut pool, workers) = Pool::<Channel<Task>>::new(channel_options(4));
        for mut worker in workers {
            let halted = &halted;
            scope.spawn(move || {
                if worker.run(&mut Rests::new(nap)) {
                    *halted.lock().unwrap() += 1;
                }
            });
        }
        for i in 0..500 {
            let done = &done;
            pool.push(move || done.lock().unwrap()[i] += 1);
        }
        pool.close();
    });
    assert_eq!(*halted.lock().unwrap(), 4);
    assert_eq!(*done.lock().unwrap(), vec![1; 500]);
}

#[test]
fn a_job_in_a_channel_pool_may_wait_for_a_later_one() {
    let log = Mutex::new(Vec::new());
    crossbeam::scope(|scope| {
        let mut pool = Pool::<Channel<Task>>::scoped(&scope, channel_options(2), nap);
        let (tx, rx) = mpsc::channel();
        let log = &log;
        pool.push(move || {
            let letter = rx.recv().unwrap();
            log.lock().unwrap().push(letter);
        });
        pool.push(move || tx.send('b').unwrap());
        pool.close();
    });
    assert_eq!(*log.lock().unwrap(), vec!['b']);
}

#[test]
fn a_job_in_a_deque_pool_may_wait_for_a_later_one() {
    let log = Mutex::new(Vec::new());
    crossbeam::scope(|scope| {
        let mut pool = Pool::<Deque<Task>>::scoped(&scope, deque_options(2), nap);
        let (tx, rx) = mpsc::channel();
        let log = &log;
        pool.push(move || {
            let letter = rx.recv().unwrap();
            log.lock().unwrap().push(letter);
        });
        pool.push(move || tx.send('b').unwrap());
        pool.close();
    });
    assert_eq!(*log.lock().unwrap(), vec!['b']);
}

#[test]
fn a_task_may_be_pushed_as_it_is() {
    let log = Mutex::new(Vec::new());
    let (mut pool, mut workers) = Pool::<Channel<Task>>::new(channel_options(1));
    pool.push(note(&log, 'a'));
    pool.push(|| log.lock().unwrap().push('b'));
    pool.push(note(&log, 'c'));
    pool.close();
    assert!(workers[0].run(&mut Rests::new(nap)));
    assert_eq!(*log.lock().unwrap(), vec!['a', 'b', 'c']);
}
