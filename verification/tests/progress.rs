use std::sync::{Arc, Mutex};

use typst_memtables::progress::{clear, install, report, Event, ProgressChannel, Sink};

/// Collects every event it receives so tests can assert on the sequence.
struct Collector(Mutex<Vec<Event>>);

/// A handle on a shared collector, as the channel holds it.
struct Shared(Arc<Collector>);

impl Sink for Shared {
    fn report(&self, event: Event) {
        self.0 .0.lock().unwrap().push(event);
    }
}

fn install_collector(channel: &mut ProgressChannel<Shared>) -> Arc<Collector> {
    let c = Arc::new(Collector(Mutex::new(Vec::new())));
    install(channel, Shared(c.clone()));
    c
}

#[test]
fn report_without_sink_is_noop() {
    let mut channel: ProgressChannel<Shared> = ProgressChannel::new();
    clear(&mut channel);
    report(&mut channel, Event::Stage("eval"));
    report(&mut channel, Event::Iteration(1));
}

#[test]
fn installed_sink_receives_events_in_order() {
    let mut channel = ProgressChannel::new();
    let c = install_collector(&mut channel);
    report(&mut channel, Event::Stage("eval"));
    report(&mut channel, Event::Iteration(1));
    report(&mut channel, Event::Pages(42));
    report(&mut channel, Event::PageEmitted { done: 1, total: 42 });
    report(&mut channel, Event::Wrote { bytes: 1024 });
    clear(&mut channel);

    let got = c.0.lock().unwrap();
    assert_eq!(got.len(), 5);
    assert!(matches!(got[0], Event::Stage("eval")));
    assert!(matches!(got[1], Event::Iteration(1)));
    assert!(matches!(got[2], Event::Pages(42)));
    assert!(matches!(got[3], Event::PageEmitted { done: 1, total: 42 }));
    assert!(matches!(got[4], Event::Wrote { bytes: 1024 }));
}

#[test]
fn install_replaces_previous_sink() {
    let mut channel = ProgressChannel::new();
    let first = install_collector(&mut channel);
    report(&mut channel, Event::Stage("eval"));
    let second = install_collector(&mut channel);
    report(&mut channel, Event::Stage("layout"));
    clear(&mut channel);

    assert_eq!(first.0.lock().unwrap().len(), 1);
    assert_eq!(second.0.lock().unwrap().len(), 1);
}

#[test]
fn clear_stops_delivering_events() {
    let mut channel = ProgressChannel::new();
    let c = install_collector(&mut channel);
    report(&mut channel, Event::Stage("eval"));
    clear(&mut channel);
    report(&mut channel, Event::Stage("layout"));
    assert_eq!(c.0.lock().unwrap().len(), 1);
}
