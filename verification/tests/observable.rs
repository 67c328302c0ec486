use rialight::observable::{
    AbstractObserver, Cleanup, Demand, Gateway, NoCleanup, Notification, Observable, Observer,
    Recorder, SubscriberFunction,
};
use std::cell::{Cell, RefCell};
use std::rc::Rc;

#[derive(Debug, Clone, PartialEq)]
enum Event {
    Start,
    Next(i32),
    Error(String),
    Complete,
}

type Log = Rc<RefCell<Vec<Event>>>;

/// Records what it receives; may unsubscribe at the start or after a value.
struct Collector {
    log: Log,
    reject_at_start: bool,
    stop_after: Option<i32>,
}

impl Collector {
    fn new(log: &Log) -> Collector {
        Collector { log: Rc::clone(log), reject_at_start: false, stop_after: None }
    }
}

impl AbstractObserver<i32, String> for Collector {
    fn start(&mut self) -> Demand {
        self.log.borrow_mut().push(Event::Start);
        if self.reject_at_start {
            Demand::Unsubscribe
        } else {
            Demand::Continue
        }
    }

    fn next(&mut self, value: i32) -> Demand {
        self.log.borrow_mut().push(Event::Next(value));
        if self.stop_after == Some(value) {
            Demand::Unsubscribe
        } else {
            Demand::Continue
        }
    }

    fn error(&mut self, error: String) {
        self.log.borrow_mut().push(Event::Error(error));
    }

    fn complete(&mut self) {
        self.log.borrow_mut().push(Event::Complete);
    }
}

/// Counts how often it runs.
struct CountingCleanup {
    runs: Rc<Cell<u32>>,
}

impl Cleanup for CountingCleanup {
    fn run(&mut self) {
        self.runs.set(self.runs.get() + 1);
    }
}

/// Pushes the signals it is made with, whatever the gateway says, and counts
/// how often it is called.
#[derive(Clone)]
enum Signal {
    Next(i32),
    Error(String),
    Complete,
}

struct Script {
    signals: Vec<Signal>,
    calls: Rc<Cell<u32>>,
    cleanups: Rc<Cell<u32>>,
}

impl SubscriberFunction<i32, String> for Script {
    type Action = CountingCleanup;

    fn produce<G: Gateway<i32, String>>(&self, gateway: G) -> (G, CountingCleanup) {
        self.calls.set(self.calls.get() + 1);
        let mut gateway = gateway;
        for signal in self.signals.iter() {
            match signal.clone() {
                Signal::Next(value) => gateway.next(value),
                Signal::Error(error) => gateway.error(error),
                Signal::Complete => gateway.complete(),
            }
        }
        (gateway, CountingCleanup { runs: Rc::clone(&self.cleanups) })
    }
}

fn script(signals: Vec<Signal>) -> (Observable<i32, String, Script>, Rc<Cell<u32>>, Rc<Cell<u32>>) {
    let calls = Rc::new(Cell::new(0));
    let cleanups = Rc::new(Cell::new(0));
    let observable = Observable::new(Script {
        signals,
        calls: Rc::clone(&calls),
        cleanups: Rc::clone(&cleanups),
    });
    (observable, calls, cleanups)
}

fn new_log() -> Log {
    Rc::new(RefCell::new(Vec::new()))
}

#[test]
fn start_comes_before_data() {
    let (observable, _, _) = script(vec![Signal::Next(1), Signal::Complete]);
    let log = new_log();
    observable.subscribe(Collector::new(&log));
    assert_eq!(*log.borrow(), vec![Event::Start, Event::Next(1), Event::Complete]);
}

#[test]
fn at_most_one_terminal_reaches_the_observer() {
    let (observable, _, _) = script(vec![
        Signal::Next(1),
        Signal::Error("first".to_string()),
        Signal::Complete,
        Signal::Error("second".to_string()),
        Signal::Next(2),
    ]);
    let log = new_log();
    let subscription = observable.subscribe(Collector::new(&log));
    assert!(subscription.closed());
    assert_eq!(
        *log.borrow(),
        vec![Event::Start, Event::Next(1), Event::Error("first".to_string())]
    );
}

#[test]
fn complete_silences_a_later_error() {
    let (observable, _, cleanups) =
        script(vec![Signal::Complete, Signal::Error("late".to_string()), Signal::Next(9)]);
    let log = new_log();
    let subscription = observable.subscribe(Collector::new(&log));
    assert!(subscription.closed());
    assert_eq!(*log.borrow(), vec![Event::Start, Event::Complete]);
    assert_eq!(cleanups.get(), 1);
}

#[test]
fn unsubscribe_runs_cleanup_once() {
    let (observable, calls, cleanups) = script(vec![Signal::Next(1)]);
    let log = new_log();
    let mut subscription = observable.subscribe(Collector::new(&log));
    assert!(!subscription.closed());
    assert_eq!(cleanups.get(), 0);
    subscription.unsubscribe();
    assert!(subscription.closed());
    assert_eq!(cleanups.get(), 1);
    subscription.unsubscribe();
    subscription.unsubscribe();
    assert_eq!(cleanups.get(), 1);
    assert_eq!(calls.get(), 1);
    assert_eq!(*log.borrow(), vec![Event::Start, Event::Next(1)]);
}

#[test]
fn unsubscribe_without_production_runs_no_cleanup() {
    let (observable, calls, cleanups) = script(vec![Signal::Next(1)]);
    let log = new_log();
    let mut collector = Collector::new(&log);
    collector.reject_at_start = true;
    let mut subscription = observable.subscribe(collector);
    subscription.unsubscribe();
    subscription.unsubscribe();
    assert_eq!(calls.get(), 0);
    assert_eq!(cleanups.get(), 0);
}

#[test]
fn nothing_reaches_the_observer_after_close() {
    let (observable, _, cleanups) = script(vec![Signal::Next(1)]);
    let log = new_log();
    let mut subscription = observable.subscribe(Collector::new(&log));
    subscription.unsubscribe();
    subscription.next(2);
    subscription.error("late".to_string());
    subscription.complete();
    assert_eq!(*log.borrow(), vec![Event::Start, Event::Next(1)]);
    assert_eq!(cleanups.get(), 1);
}

#[test]
fn later_emissions_reach_an_open_subscription() {
    let (observable, _, cleanups) = script(vec![]);
    let log = new_log();
    let mut subscription = observable.subscribe(Collector::new(&log));
    subscription.next(7);
    assert_eq!(cleanups.get(), 0);
    subscription.error("stop".to_string());
    assert!(subscription.closed());
    assert_eq!(cleanups.get(), 1);
    subscription.complete();
    assert_eq!(
        *log.borrow(),
        vec![Event::Start, Event::Next(7), Event::Error("stop".to_string())]
    );
    assert_eq!(cleanups.get(), 1);
}

#[test]
fn cleanup_runs_at_once_when_production_closes() {
    let (observable, _, cleanups) = script(vec![Signal::Next(1), Signal::Complete]);
    let log = new_log();
    let subscription = observable.subscribe(Collector::new(&log));
    assert!(subscription.closed());
    assert_eq!(cleanups.get(), 1);
}

#[test]
fn sequence_is_restartable() {
    let observable: Observable<i32, String, _> = Observable::from_sequence(vec![1, 2, 3]);
    let first = new_log();
    let second = new_log();
    let a = observable.subscribe(Collector::new(&first));
    let b = observable.subscribe(Collector::new(&second));
    let expected =
        vec![Event::Start, Event::Next(1), Event::Next(2), Event::Next(3), Event::Complete];
    assert_eq!(*first.borrow(), expected);
    assert_eq!(*second.borrow(), expected);
    assert!(a.closed());
    assert!(b.closed());
}

#[test]
fn empty_sequence_completes() {
    let observable: Observable<i32, String, _> = Observable::from_sequence(vec![]);
    let log = new_log();
    let subscription = observable.subscribe(Collector::new(&log));
    assert!(subscription.closed());
    assert_eq!(*log.borrow(), vec![Event::Start, Event::Complete]);
}

#[test]
fn filter_then_map() {
    let source: Observable<i32, String, _> = Observable::from_sequence(vec![1, 2, 3, 4, 5]);
    let observable = source.filter(|x: &i32| x % 2 == 0).map(|x: i32| x * 10);
    let log = new_log();
    let subscription = observable.subscribe(Collector::new(&log));
    assert!(subscription.closed());
    assert_eq!(
        *log.borrow(),
        vec![Event::Start, Event::Next(20), Event::Next(40), Event::Complete]
    );
}

#[test]
fn map_forwards_error_unchanged() {
    let (source, _, cleanups) = script(vec![Signal::Next(1), Signal::Error("bad".to_string())]);
    let observable = source.map(|x: i32| x + 100);
    let log = new_log();
    let subscription = observable.subscribe(Collector::new(&log));
    assert!(subscription.closed());
    assert_eq!(
        *log.borrow(),
        vec![Event::Start, Event::Next(101), Event::Error("bad".to_string())]
    );
    assert_eq!(cleanups.get(), 1);
}

#[test]
fn filter_drops_values_silently() {
    let (source, _, _) = script(vec![Signal::Next(1), Signal::Next(2), Signal::Next(3)]);
    let observable = source.filter(|x: &i32| *x > 5);
    let log = new_log();
    let mut subscription = observable.subscribe(Collector::new(&log));
    assert!(!subscription.closed());
    assert_eq!(*log.borrow(), vec![Event::Start]);
    subscription.unsubscribe();
    assert!(subscription.closed());
}

#[test]
fn early_unsubscribe() {
    let observable: Observable<i32, String, _> = Observable::from_sequence(vec![1, 2, 3]);
    let log = new_log();
    let mut collector = Collector::new(&log);
    collector.stop_after = Some(1);
    let subscription = observable.subscribe(collector);
    assert!(subscription.closed());
    assert_eq!(*log.borrow(), vec![Event::Start, Event::Next(1)]);
}

#[test]
fn early_unsubscribe_silences_a_producer_that_goes_on() {
    let (observable, _, cleanups) =
        script(vec![Signal::Next(1), Signal::Next(2), Signal::Next(3), Signal::Complete]);
    let log = new_log();
    let mut collector = Collector::new(&log);
    collector.stop_after = Some(1);
    let subscription = observable.subscribe(collector);
    assert!(subscription.closed());
    assert_eq!(*log.borrow(), vec![Event::Start, Event::Next(1)]);
    assert_eq!(cleanups.get(), 1);
}

#[test]
fn start_time_rejection() {
    let (observable, calls, cleanups) = script(vec![Signal::Next(1), Signal::Complete]);
    let log = new_log();
    let mut collector = Collector::new(&log);
    collector.reject_at_start = true;
    let subscription = observable.subscribe(collector);
    assert!(subscription.closed());
    assert_eq!(calls.get(), 0);
    assert_eq!(cleanups.get(), 0);
    assert_eq!(*log.borrow(), vec![Event::Start]);
}

#[test]
fn observer_of_callbacks() {
    let log = new_log();
    let on_next = {
        let log = Rc::clone(&log);
        move |value: i32| {
            log.borrow_mut().push(Event::Next(value));
            Demand::Continue
        }
    };
    let on_complete = {
        let log = Rc::clone(&log);
        move || log.borrow_mut().push(Event::Complete)
    };
    let observer = Observer::new(
        Some(on_next),
        None::<fn(String)>,
        Some(on_complete),
        None::<fn() -> Demand>,
    );
    let observable: Observable<i32, String, _> = Observable::from_sequence(vec![4, 5]);
    let subscription = observable.subscribe(observer);
    assert!(subscription.closed());
    assert_eq!(*log.borrow(), vec![Event::Next(4), Event::Next(5), Event::Complete]);
}

#[test]
fn observer_without_callbacks_ignores_an_error() {
    let (observable, _, cleanups) = script(vec![Signal::Error("lost".to_string())]);
    let observer = Observer::new(
        None::<fn(i32) -> Demand>,
        None::<fn(String)>,
        None::<fn()>,
        None::<fn() -> Demand>,
    );
    let subscription = observable.subscribe(observer);
    assert!(subscription.closed());
    assert_eq!(cleanups.get(), 1);
}

#[test]
fn no_cleanup_does_nothing() {
    let mut action = NoCleanup::new();
    action.run();
    action.run();
}

#[test]
fn sequence_holds_its_action_after_the_run() {
    let observable: Observable<i32, String, _> = Observable::from_sequence(vec![1, 2]);
    let subscription = observable.subscribe(Recorder::new());
    assert!(subscription.closed());
    assert!(subscription.cleanup_action().is_some());
}

#[test]
fn action_waits_while_open_and_is_kept_after() {
    let (observable, _, cleanups) = script(vec![Signal::Next(1)]);
    let mut subscription = observable.subscribe(Recorder::new());
    assert!(subscription.cleanup_action().is_some());
    assert_eq!(cleanups.get(), 0);
    subscription.unsubscribe();
    assert!(subscription.cleanup_action().is_some());
    assert_eq!(cleanups.get(), 1);
    subscription.unsubscribe();
    subscription.complete();
    assert_eq!(cleanups.get(), 1);
}

#[test]
fn no_action_where_the_subscriber_never_ran() {
    let (observable, calls, cleanups) = script(vec![Signal::Next(1)]);
    let observer = Observer::new(
        None::<fn(i32) -> Demand>,
        None::<fn(String)>,
        None::<fn()>,
        Some(|| Demand::Unsubscribe),
    );
    let mut subscription = observable.subscribe(observer);
    assert!(subscription.closed());
    assert!(subscription.cleanup_action().is_none());
    subscription.unsubscribe();
    assert_eq!(calls.get(), 0);
    assert_eq!(cleanups.get(), 0);
}

#[test]
fn terminal_notifications_reach_the_observer() {
    let (observable, _, _) = script(vec![Signal::Next(1), Signal::Error("e".to_string())]);
    let subscription = observable.subscribe(Recorder::new());
    assert!(subscription.closed());
    assert!(subscription.observer().is_none());
    assert_eq!(
        *subscription.receiver().notifications(),
        vec![Notification::Start, Notification::Next(1), Notification::Error("e".to_string())]
    );

    let (observable, _, _) = script(vec![Signal::Next(1)]);
    let mut subscription = observable.subscribe(Recorder::new());
    subscription.complete();
    subscription.next(2);
    subscription.error("late".to_string());
    assert_eq!(
        *subscription.receiver().notifications(),
        vec![Notification::Start, Notification::Next(1), Notification::Complete]
    );

    let observable: Observable<i32, String, _> = Observable::from_sequence(vec![7, 8]);
    let subscription = observable.subscribe(Recorder::new());
    assert_eq!(
        *subscription.receiver().notifications(),
        vec![
            Notification::Start,
            Notification::Next(7),
            Notification::Next(8),
            Notification::Complete
        ]
    );
}

#[test]
fn receiver_is_the_observer_while_open() {
    let (observable, _, _) = script(vec![Signal::Next(1)]);
    let mut subscription = observable.subscribe(Recorder::new());
    assert_eq!(subscription.receiver().notifications().len(), 2);
    assert_eq!(subscription.observer().unwrap().notifications().len(), 2);
    subscription.unsubscribe();
    assert_eq!(subscription.receiver().notifications().len(), 2);
}

#[test]
fn recorder_keeps_what_is_delivered() {
    let (observable, _, cleanups) = script(vec![Signal::Next(1), Signal::Next(2)]);
    let mut subscription = observable.subscribe(Recorder::new());
    assert!(!subscription.closed());
    assert_eq!(
        *subscription.observer().unwrap().notifications(),
        vec![Notification::Start, Notification::Next(1), Notification::Next(2)]
    );
    subscription.next(3);
    assert_eq!(subscription.observer().unwrap().notifications().len(), 4);
    subscription.complete();
    assert!(subscription.observer().is_none());
    assert_eq!(subscription.receiver().notifications().len(), 5);
    assert_eq!(cleanups.get(), 1);
}

#[test]
fn recorder_alone() {
    let mut recorder: Recorder<i32, String> = Recorder::new();
    assert!(recorder.start() == Demand::Continue);
    assert!(recorder.next(5) == Demand::Continue);
    recorder.error("e".to_string());
    recorder.complete();
    assert_eq!(
        recorder.into_notifications(),
        vec![
            Notification::Start,
            Notification::Next(5),
            Notification::Error("e".to_string()),
            Notification::Complete
        ]
    );
}
