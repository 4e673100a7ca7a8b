use kirk::crew::deque::{DequeWorker, Options};
use kirk::crew::{Rest, Rests};
use kirk::{Crew, Deque, Event, Message, Parameters, Task, Worker};
use std::cell::RefCell;
use std::sync::Mutex;
use std::time::Duration;

const INTERVAL: Duration = Duration::from_millis(7);

fn worker<'a>(retry_threshold: u32) -> DequeWorker<Task<'a>> {
    let mut crew = Deque::new(Options {
        retry_threshold,
        cold_interval: INTERVAL,
        num_workers: 1,
    });
    crew.hire()
}

fn job<'a>() -> Event<Task<'a>> {
    Event::Taken(Message::Work(Task::from(|| {})))
}

#[test]
fn default_options() {
    let options = Options::default();
    assert_eq!(options.retry_threshold, 32);
    assert_eq!(options.cold_interval, Duration::from_millis(1));
    assert_eq!(options.num_workers, num_cpus::get());
    assert_eq!(Parameters::num_workers(&options), options.num_workers);
}

#[test]
fn a_new_worker_is_hot() {
    assert_eq!(worker(3).wait(), Rest::Skip);
}

#[test]
fn finding_nothing_makes_a_worker_warm_then_cold() {
    let mut worker = worker(3);
    for _ in 0..3 {
        assert!(worker.react(Event::Nothing));
        assert_eq!(worker.wait(), Rest::Yield);
    }
    for _ in 0..5 {
        assert!(worker.react(Event::Nothing));
        assert_eq!(worker.wait(), Rest::Sleep(INTERVAL));
    }
}

#[test]
fn losing_races_makes_a_worker_warm_then_cold_then_hot() {
    let mut worker = worker(2);
    let mut rests = Vec::new();
    for _ in 0..5 {
        assert!(worker.react(Event::Missed));
        rests.push(worker.wait());
    }
    assert_eq!(
        rests,
        vec![Rest::Yield, Rest::Yield, Rest::Sleep(INTERVAL), Rest::Skip, Rest::Yield]
    );
}

#[test]
fn both_kinds_of_failure_count() {
    let mut worker = worker(2);
    worker.react(Event::Missed);
    worker.react(Event::Nothing);
    assert_eq!(worker.wait(), Rest::Yield);
    worker.react(Event::Missed);
    assert_eq!(worker.wait(), Rest::Sleep(INTERVAL));
}

#[test]
fn a_job_makes_a_worker_hot_and_resets_its_retries() {
    let mut worker = worker(2);
    worker.react(Event::Nothing);
    worker.react(Event::Nothing);
    assert!(worker.react(job()));
    assert_eq!(worker.wait(), Rest::Skip);
    worker.react(Event::Nothing);
    worker.react(Event::Nothing);
    assert_eq!(worker.wait(), Rest::Yield);
    worker.react(Event::Nothing);
    assert_eq!(worker.wait(), Rest::Sleep(INTERVAL));
    assert!(worker.react(job()));
    assert_eq!(worker.wait(), Rest::Skip);
}

#[test]
fn without_a_threshold_every_failure_makes_a_worker_cold() {
    let mut worker = worker(0);
    worker.react(Event::Nothing);
    assert_eq!(worker.wait(), Rest::Sleep(INTERVAL));
    worker.react(Event::Missed);
    assert_eq!(worker.wait(), Rest::Sleep(INTERVAL));
    worker.react(job());
    assert_eq!(worker.wait(), Rest::Skip);
    worker.react(Event::Missed);
    assert_eq!(worker.wait(), Rest::Sleep(INTERVAL));
}

#[test]
fn the_largest_threshold_keeps_a_worker_warm() {
    let mut worker = worker(u32::MAX);
    for _ in 0..1000 {
        worker.react(Event::Nothing);
        assert_eq!(worker.wait(), Rest::Yield);
    }
}

#[test]
fn a_threshold_of_one_allows_one_failure() {
    let mut worker = worker(1);
    worker.nothing();
    assert_eq!(worker.wait(), Rest::Yield);
    worker.missed();
    assert_eq!(worker.wait(), Rest::Sleep(INTERVAL));
    worker.nothing();
    assert_eq!(worker.wait(), Rest::Sleep(INTERVAL));
    worker.missed();
    assert_eq!(worker.wait(), Rest::Skip);
}

#[test]
fn a_stop_changes_nothing_but_ends_the_loop() {
    let mut worker = worker(2);
    worker.react(Event::Nothing);
    assert!(!worker.react(Event::Taken(Message::Stop)));
    assert_eq!(worker.wait(), Rest::Yield);
    assert!(!worker.react(Event::Closed));
    assert_eq!(worker.wait(), Rest::Yield);
}

#[test]
fn a_worker_performs_the_job_that_it_takes() {
    let done = Mutex::new(0);
    let mut worker = worker(2);
    worker.does(Task::from(|| *done.lock().unwrap() += 1));
    assert_eq!(*done.lock().unwrap(), 1);
    worker.react(Event::Taken(Message::Work(Task::from(|| *done.lock().unwrap() += 10))));
    assert_eq!(*done.lock().unwrap(), 11);
}

#[test]
fn the_main_loop_asks_for_the_rests_that_its_load_calls_for() {
    let crew = RefCell::new(Deque::<Task>::new(Options {
        retry_threshold: 2,
        cold_interval: INTERVAL,
        num_workers: 1,
    }));
    let mut worker = crew.borrow_mut().hire();
    let rests = RefCell::new(Vec::new());
    let stopped = worker.run(&mut Rests::new(|rest| {
        rests.borrow_mut().push(rest);
        let n = rests.borrow().len();
        if n == 5 {
            crew.borrow_mut().give(|| {});
        } else if n == 8 {
            crew.borrow_mut().stop();
        }
    }));
    assert!(stopped);
    assert_eq!(
        rests.into_inner(),
        vec![
            Rest::Yield,
            Rest::Yield,
            Rest::Sleep(INTERVAL),
            Rest::Sleep(INTERVAL),
            Rest::Sleep(INTERVAL),
            Rest::Skip,
            Rest::Yield,
            Rest::Yield,
        ]
    );
}

#[test]
fn a_worker_yields_within_its_threshold_and_sleeps_beyond_it() {
    for (threshold, empties) in [(0, 3), (1, 1), (2, 5), (4, 2)] {
        let crew = RefCell::new(Deque::<Task>::new(Options {
            retry_threshold: threshold,
            cold_interval: INTERVAL,
            num_workers: 1,
        }));
        let mut worker = crew.borrow_mut().hire();
        let rests = RefCell::new(Vec::new());
        assert!(worker.run(&mut Rests::new(|rest| {
            rests.borrow_mut().push(rest);
            if rests.borrow().len() == empties {
                crew.borrow_mut().stop();
            }
        })));
        let yields = empties.min(threshold as usize);
        let mut expected = vec![Rest::Yield; yields];
        expected.extend(vec![Rest::Sleep(INTERVAL); empties - yields]);
        assert_eq!(rests.into_inner(), expected);
    }
}
