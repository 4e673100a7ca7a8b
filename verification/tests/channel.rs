use kirk::crew::channel::{ChannelWorker, Options};
use kirk::crew::{Rest, Rests};
use kirk::{Channel, Crew, Event, Message, Parameters, Task, Worker};
use std::cell::RefCell;
use std::sync::Mutex;

fn worker<'a>() -> ChannelWorker<Task<'a>> {
    Channel::new(Options { num_workers: 1 }).hire()
}

#[test]
fn default_channel_options() {
    let options = Options::default();
    assert_eq!(options.num_workers, num_cpus::get());
    assert_eq!(Parameters::num_workers(&options), options.num_workers);
}

#[test]
fn a_channel_worker_performs_the_job_that_it_takes() {
    let done = Mutex::new(0);
    let mut worker = worker();
    worker.does(Task::from(|| *done.lock().unwrap() += 1));
    assert_eq!(*done.lock().unwrap(), 1);
    let event = Event::Taken(Message::Work(Task::from(|| *done.lock().unwrap() += 10)));
    assert!(worker.react(event));
    assert_eq!(*done.lock().unwrap(), 11);
}

#[test]
fn anything_but_a_job_ends_the_loop() {
    let mut worker = worker();
    assert!(!worker.react(Event::Taken(Message::Stop)));
    assert!(!worker.react(Event::Closed));
    assert!(!worker.react(Event::Missed));
    assert!(!worker.react(Event::Nothing));
}

#[test]
fn a_channel_worker_never_rests() {
    let rests = RefCell::new(Vec::<Rest>::new());
    let mut crew = Channel::<Task>::new(Options { num_workers: 1 });
    let mut worker = crew.hire();
    crew.give(|| {});
    crew.give(|| {});
    crew.stop();
    assert!(worker.run(&mut Rests::new(|rest| rests.borrow_mut().push(rest))));
    assert!(rests.into_inner().is_empty());
}
