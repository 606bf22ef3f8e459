//! The replay classifier routes each event into the move alphabet.

use fulcrum::replay::classify_events;
use fulcrum::{Counters, EventKind, MachineId, Mass, MoveRecord, ParsedEvent};

fn ev_schedule(time: u64, inst: &str, machine: u64, mass: u64) -> ParsedEvent {
    ParsedEvent {
        time,
        kind: EventKind::Schedule,
        instance: inst.to_string(),
        machine: MachineId(machine),
        mass: Mass([mass]),
    }
}

fn ev_remove(time: u64, inst: &str) -> ParsedEvent {
    ParsedEvent {
        time,
        kind: EventKind::Remove,
        instance: inst.to_string(),
        machine: MachineId(0),
        mass: Mass([0]),
    }
}

#[test]
fn empty_stream() {
    let r = classify_events(vec![], 100);
    assert_eq!(r.counters, Counters::default());
}

#[test]
fn place_then_remove_classifies_both() {
    let events = vec![ev_schedule(1, "a", 1, 30), ev_remove(2, "a")];
    let r = classify_events(events, 100);
    assert_eq!(r.counters.place, 1);
    assert_eq!(r.counters.remove, 1);
    assert_eq!(r.counters.applied_total(), 2);
    assert_eq!(r.counters.applied_typed_pure(), 1);
    assert_eq!(r.fleet.load(MachineId(1)), Some(Mass([0])));
}

#[test]
fn remove_for_unseen_instance_is_unobservable() {
    let events = vec![ev_remove(1, "ghost")];
    let r = classify_events(events, 100);
    assert_eq!(r.counters.remove_unobservable, 1);
    assert_eq!(r.counters.applied_total(), 0);
}

#[test]
fn migrate_hot_to_cold() {
    let events = vec![
        ev_schedule(1, "heavy", 1, 60),
        ev_schedule(2, "small", 1, 20),
        ev_schedule(3, "small", 2, 20),
    ];
    let r = classify_events(events, 100);
    assert_eq!(r.counters.place, 2);
    assert_eq!(r.counters.hot_to_cold, 1);
    assert_eq!(r.counters.cold_to_hot, 0);
}

#[test]
fn migrate_cold_to_hot() {
    let events = vec![
        ev_schedule(1, "light", 1, 10),
        ev_schedule(2, "heavy", 2, 50),
        ev_schedule(3, "light", 2, 10),
    ];
    let r = classify_events(events, 100);
    assert_eq!(r.counters.place, 2);
    assert_eq!(r.counters.cold_to_hot, 1);
    assert_eq!(r.counters.hot_to_cold, 0);
}

#[test]
fn migrate_neutral_when_loads_equal() {
    let events = vec![
        ev_schedule(1, "a", 1, 10),
        ev_schedule(2, "b", 2, 10),
        ev_schedule(3, "a", 3, 10),
        ev_schedule(4, "b", 3, 10),
    ];
    let r = classify_events(events, 100);
    assert_eq!(r.counters.place, 2);
    assert_eq!(r.counters.hot_to_cold, 1);
    assert_eq!(r.counters.neutral, 1);
}

#[test]
fn time_sort_corrects_out_of_order_input() {
    let events = vec![ev_remove(2, "a"), ev_schedule(1, "a", 1, 30)];
    let r = classify_events(events, 100);
    assert_eq!(r.counters.place, 1);
    assert_eq!(r.counters.remove, 1);
    assert_eq!(r.counters.remove_unobservable, 0);
}

#[test]
fn same_machine_reschedule_no_op() {
    let events = vec![ev_schedule(1, "a", 1, 30), ev_schedule(2, "a", 1, 30)];
    let r = classify_events(events, 100);
    assert_eq!(r.counters.place, 1);
    assert_eq!(r.counters.hot_to_cold, 0);
    assert_eq!(r.counters.neutral, 0);
    assert_eq!(r.counters.cold_to_hot, 0);
}

#[test]
fn history_records_each_applied_event_in_order() {
    let events = vec![
        ev_schedule(1, "heavy", 1, 60),
        ev_schedule(2, "small", 1, 20),
        ev_schedule(3, "small", 2, 20),
        ev_remove(4, "heavy"),
        ev_remove(5, "nobody"),
    ];
    let r = classify_events(events, 100);
    let recs: Vec<MoveRecord<1>> = r.history.iter().copied().collect();
    assert_eq!(
        recs,
        vec![
            MoveRecord::Place { machine: MachineId(1), mass: Mass([60]) },
            MoveRecord::Place { machine: MachineId(1), mass: Mass([20]) },
            MoveRecord::HotToCold {
                source: MachineId(1),
                destination: MachineId(2),
                mass: Mass([20]),
            },
            MoveRecord::Remove { machine: MachineId(1), mass: Mass([60]) },
        ]
    );
    assert_eq!(r.history.len() as u64, r.counters.applied_total());
    assert_eq!(r.fleet.load(MachineId(1)), Some(Mass([0])));
    assert_eq!(r.fleet.load(MachineId(2)), Some(Mass([20])));
    assert_eq!(r.fleet.capacity_of(MachineId(2)), Some(fulcrum::Capacity([100])));
}
