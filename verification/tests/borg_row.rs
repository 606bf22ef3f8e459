//! Interpreting Borg-trace rows: event names, dropped rows, the CPU text.

use fulcrum::borg_row::{cpus_field, event_kind, row_event};
use fulcrum::replay::schedule_total_fits;
use fulcrum::{EventKind, MachineId, Mass, ParsedEvent};

fn cpus(s: &str) -> Option<f64> {
    let text: String = cpus_field(s)?.into_iter().collect();
    text.parse().ok()
}

#[test]
fn parse_cpus_handles_dict_format() {
    assert_eq!(cpus("{'cpus': 0.020660400390625, 'memory': 0.014434814453125}"), Some(0.020660400390625));
    assert_eq!(cpus("{'cpus': 1.23e-5, 'memory': 0.001}"), Some(1.23e-5));
    assert_eq!(cpus("{'memory': 0.5}"), None);
}

#[test]
fn cpus_field_takes_the_number_text_after_the_first_key() {
    let t: String = cpus_field("{'cpus':   \u{a0}12.5e+3}").unwrap().into_iter().collect();
    assert_eq!(t, "12.5e+3");
    let first: String = cpus_field("'cpus': 1, 'cpus': 2").unwrap().into_iter().collect();
    assert_eq!(first, "1");
    let empty: String = cpus_field("{'cpus': None}").unwrap().into_iter().collect();
    assert_eq!(empty, "");
    assert!(cpus_field("'cpus'").is_none());
}

#[test]
fn event_names_map_to_kinds() {
    assert_eq!(event_kind("SCHEDULE"), Some(EventKind::Schedule));
    for name in ["FINISH", "FAIL", "KILL", "LOST", "EVICT"] {
        assert_eq!(event_kind(name), Some(EventKind::Remove));
    }
    for name in ["ENABLE", "QUEUE", "UPDATE_PENDING", "schedule", "SCHEDULED", ""] {
        assert_eq!(event_kind(name), None);
    }
}

#[test]
fn schedule_rows_need_a_machine_and_cpu() {
    let e = row_event(EventKind::Schedule, 7, "1|2".to_string(), Some(3), 40).unwrap();
    assert_eq!(e.time, 7);
    assert_eq!(e.kind, EventKind::Schedule);
    assert_eq!(e.instance, "1|2");
    assert_eq!(e.machine, MachineId(3));
    assert_eq!(e.mass, Mass([40]));
    assert!(row_event(EventKind::Schedule, 7, "1|2".to_string(), None, 40).is_none());
    assert!(row_event(EventKind::Schedule, 7, "1|2".to_string(), Some(0), 40).is_none());
    assert!(row_event(EventKind::Schedule, 7, "1|2".to_string(), Some(3), 0).is_none());
}

#[test]
fn remove_rows_keep_the_instance_and_carry_no_mass() {
    let e = row_event(EventKind::Remove, 9, "a|b".to_string(), None, 55).unwrap();
    assert_eq!(e.machine, MachineId(0));
    assert_eq!(e.mass, Mass([0]));
    assert_eq!(e.instance, "a|b");
    let e = row_event(EventKind::Remove, 9, "a|b".to_string(), Some(4), 0).unwrap();
    assert_eq!(e.machine, MachineId(4));
}

fn sched(mass: u64) -> ParsedEvent {
    ParsedEvent {
        time: 0,
        kind: EventKind::Schedule,
        instance: "x".to_string(),
        machine: MachineId(1),
        mass: Mass([mass]),
    }
}

#[test]
fn scheduled_total_must_fit_in_a_word() {
    assert!(schedule_total_fits(&[]));
    assert!(schedule_total_fits(&[sched(u64::MAX - 1), sched(1)]));
    assert!(!schedule_total_fits(&[sched(u64::MAX), sched(1)]));
    let mut remove = sched(u64::MAX);
    remove.kind = EventKind::Remove;
    assert!(schedule_total_fits(&[sched(u64::MAX), remove]));
}
