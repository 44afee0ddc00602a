use nephelios::bus::{EventBus, RecvOutcome};
use nephelios::status::{Phase, Severity, StatusEvent};

fn ev(message: &str) -> StatusEvent {
    StatusEvent::new("demo", Phase::Building, Severity::InProgress, message)
}

fn recv_message(bus: &EventBus, sub: &mut nephelios::bus::Subscription) -> Option<String> {
    match bus.recv(sub) {
        RecvOutcome::Event(e) => Some(e.message),
        _ => None,
    }
}

#[test]
fn subscriber_receives_events_in_emission_order() {
    let mut bus = EventBus::new(8);
    let mut sub = bus.subscribe();
    bus.emit(ev("first"));
    bus.emit(ev("second"));
    bus.emit(ev("third"));
    assert_eq!(recv_message(&bus, &mut sub).as_deref(), Some("first"));
    assert_eq!(recv_message(&bus, &mut sub).as_deref(), Some("second"));
    assert_eq!(recv_message(&bus, &mut sub).as_deref(), Some("third"));
    assert!(matches!(bus.recv(&mut sub), RecvOutcome::Empty));
}

#[test]
fn late_subscriber_sees_no_history() {
    let mut bus = EventBus::new(32);
    for i in 0..10 {
        bus.emit(ev(&format!("event-{}", i + 1)));
    }
    // Attaching after ten events and before any wrap: only events from
    // the eleventh onward are delivered.
    let mut sub = bus.subscribe();
    assert!(matches!(bus.recv(&mut sub), RecvOutcome::Empty));
    bus.emit(ev("event-11"));
    bus.emit(ev("event-12"));
    assert_eq!(recv_message(&bus, &mut sub).as_deref(), Some("event-11"));
    assert_eq!(recv_message(&bus, &mut sub).as_deref(), Some("event-12"));
    assert!(matches!(bus.recv(&mut sub), RecvOutcome::Empty));
}

#[test]
fn stalled_subscriber_gets_lag_indicator_not_stale_events() {
    let mut bus = EventBus::new(4);
    let mut sub = bus.subscribe();
    for i in 0..10 {
        bus.emit(ev(&format!("event-{}", i + 1)));
    }
    // Six events were overwritten past this cursor: an explicit count,
    // then delivery resumes at the oldest event still buffered.
    match bus.recv(&mut sub) {
        RecvOutcome::Lagged(n) => assert_eq!(n, 6),
        other => panic!("expected a lag indicator, got {:?}", discriminant_name(&other)),
    }
    assert_eq!(recv_message(&bus, &mut sub).as_deref(), Some("event-7"));
    assert_eq!(recv_message(&bus, &mut sub).as_deref(), Some("event-8"));
    assert_eq!(recv_message(&bus, &mut sub).as_deref(), Some("event-9"));
    assert_eq!(recv_message(&bus, &mut sub).as_deref(), Some("event-10"));
    assert!(matches!(bus.recv(&mut sub), RecvOutcome::Empty));
}

fn discriminant_name(r: &RecvOutcome) -> &'static str {
    match r {
        RecvOutcome::Event(_) => "Event",
        RecvOutcome::Lagged(_) => "Lagged",
        RecvOutcome::Empty => "Empty",
    }
}

#[test]
fn producers_never_block_and_dropped_events_are_silent() {
    // No subscriber at all: emission still succeeds, nothing is kept for
    // future subscribers.
    let mut bus = EventBus::new(2);
    for i in 0..100 {
        bus.emit(ev(&format!("event-{}", i)));
    }
    let mut sub = bus.subscribe();
    assert!(matches!(bus.recv(&mut sub), RecvOutcome::Empty));
}

#[test]
fn subscriptions_are_independent() {
    let mut bus = EventBus::new(8);
    let mut early = bus.subscribe();
    bus.emit(ev("one"));
    let mut late = bus.subscribe();
    bus.emit(ev("two"));
    // Dropping one subscription does not disturb another.
    let extra = bus.subscribe();
    drop(extra);
    assert_eq!(recv_message(&bus, &mut early).as_deref(), Some("one"));
    assert_eq!(recv_message(&bus, &mut early).as_deref(), Some("two"));
    assert_eq!(recv_message(&bus, &mut late).as_deref(), Some("two"));
    assert!(matches!(bus.recv(&mut late), RecvOutcome::Empty));
}

#[test]
fn event_fields_are_carried_through() {
    let mut bus = EventBus::new(4);
    let mut sub = bus.subscribe();
    bus.emit(StatusEvent::new("demo", Phase::FetchingSource, Severity::Success, "Cloning repository"));
    match bus.recv(&mut sub) {
        RecvOutcome::Event(e) => {
            assert_eq!(e.app_name, "demo");
            assert_eq!(e.phase, Phase::FetchingSource);
            assert_eq!(e.severity, Severity::Success);
            assert_eq!(e.message, "Cloning repository");
            assert!(e.payload.is_none());
        }
        _ => panic!("expected an event"),
    }
}
