//! End to end over a small trace: rows → events → classifier → counters.

use fulcrum::trace_csv::{parse_u64_exec, TraceColumn, TraceError};
use fulcrum::borg_row::{cpus_field, row_event};
use fulcrum::trace_csv::trace_rows;
use fulcrum::replay::classify_events;
use fulcrum::{Counters, EventKind, ParsedEvent};

/// (time, event, collection_id, instance_index, machine_id, resource_request)
type Row = (&'static str, &'static str, &'static str, &'static str, &'static str, &'static str);

/// The rows of the trace, deliberately not in time order: most removals
/// come before the schedules they end.
const ROWS: [Row; 13] = [
    ("500", "FINISH", "c1", "0", "20", ""),
    ("900", "EVICT", "c4", "0", "", ""),
    ("100", "SCHEDULE", "c1", "0", "10", "{'cpus': 0.3, 'memory': 0.1}"),
    ("0", "ENABLE", "c9", "0", "10", "{'cpus': 0.9}"),
    ("300", "SCHEDULE", "c1", "0", "20", "{'cpus': 0.3, 'memory': 0.1}"),
    ("50", "SCHEDULE", "c4", "0", "10", "{'cpus': 0.1, 'memory': 0.01}"),
    ("75", "FINISH", "c5", "0", "10", ""),
    ("150", "SCHEDULE", "c6", "0", "20", "{'cpus': 0.1}"),
    ("600", "SCHEDULE", "c6", "0", "30", "{'cpus': 0.1}"),
    ("200", "SCHEDULE", "c2", "0", "30", "{'cpus': 0.5}"),
    ("400", "SCHEDULE", "c3", "0", "40", "{'cpus': 0.2}"),
    ("800", "SCHEDULE", "c7", "0", "40", "{'cpus': 0.05}"),
    ("700", "SCHEDULE", "c7", "0", "40", "{'cpus': 0.05}"),
];

/// The rows as CSV text, with a header in a shuffled column order.
fn csv_text(rows: &[Row]) -> String {
    let mut out = String::from("collection_id,event,time,extra,resource_request,instance_index,machine_id\n");
    for &(time, event, collection, index, machine, request) in rows {
        out.push_str(&format!(
            "{},{},{},x,\"{}\",{},{}\n",
            collection, event, time, request, index, machine
        ));
    }
    out
}

/// Read the rows as the trace reader does, CPU scaled by 10⁶.
fn parse_rows(rows: &[Row]) -> (Vec<ParsedEvent>, u64) {
    let text = csv_text(rows);
    let (trace, mut dropped) = trace_rows(text.as_bytes()).expect("a readable trace");
    let mut events = Vec::new();
    for row in trace {
        let mass = match row.kind {
            EventKind::Schedule => {
                let text: String =
                    cpus_field(&row.request).map(|t| t.into_iter().collect()).unwrap_or_default();
                let cpus: f64 = text.parse().unwrap_or(0.0);
                (cpus * 1_000_000.0).round() as u64
            }
            EventKind::Remove => 0,
        };
        match row_event(row.kind, row.time, row.instance, row.machine, mass) {
            Some(e) => events.push(e),
            None => dropped += 1,
        }
    }
    (events, dropped)
}

#[test]
fn tiny_trace_classifier_produces_expected_counters() {
    let (events, dropped) = parse_rows(&ROWS);
    assert_eq!(events.len(), 12, "12 state-changing events expected");
    assert_eq!(dropped, 1, "1 dropped row expected (ENABLE)");

    let result = classify_events(events, 1_000_000);
    let c = result.counters;
    let expected = Counters {
        remove: 2,
        remove_unobservable: 1,
        place: 6,
        hot_to_cold: 1,
        neutral: 0,
        cold_to_hot: 1,
        well_formedness_skipped: 0,
    };
    assert_eq!(c, expected, "classifier counters drifted from expected");
    assert_eq!(c.applied_typed_pure(), 3);
    assert_eq!(c.applied_catch_all(), 7);
    assert_eq!(c.applied_total(), 10);
    assert!((c.applied_typed_pure() as f64 / c.applied_total() as f64 - 0.30).abs() < 1e-9);
    assert_eq!(result.history.len(), 10);
}

#[test]
fn time_sort_is_actually_applied() {
    let (events, _) = parse_rows(&ROWS);
    let result = classify_events(events, 1_000_000);
    assert!(result.counters.remove > 0, "REMOVE counter should be non-zero after time-sorting");
}

#[test]
fn trace_rows_reads_fields_by_header_name() {
    let text = "machine_id,time,event,collection_id,instance_index,resource_request\n\
                7,+42,SCHEDULE,c1,3,\"{'cpus': 0.5, 'memory': 1}\"\n\
                ,x,FINISH,c1,3,\n\
                1,5,UPDATE_PENDING,c2,0,\n";
    let (rows, dropped) = trace_rows(text.as_bytes()).unwrap();
    assert_eq!(dropped, 1);
    assert_eq!(rows.len(), 2);
    assert_eq!(rows[0].kind, EventKind::Schedule);
    assert_eq!(rows[0].time, 42);
    assert_eq!(rows[0].instance, "c1|3");
    assert_eq!(rows[0].machine, Some(7));
    assert_eq!(rows[0].request, "{'cpus': 0.5, 'memory': 1}");
    assert_eq!(rows[1].kind, EventKind::Remove);
    assert_eq!(rows[1].time, 0);
    assert_eq!(rows[1].machine, None);
    // a missing column is named, in the order the reader looks for them
    let r = trace_rows(b"time,event,collection_id\n1,SCHEDULE,c\n");
    assert_eq!(r.err(), Some(TraceError::MissingColumn(TraceColumn::MachineId)));
    // records of unequal length are not a CSV table for the reader
    let r = trace_rows(b"time,event,machine_id,collection_id,instance_index,resource_request\n1,2\n");
    assert_eq!(r.err(), Some(TraceError::Unreadable));
}

#[test]
fn unsigned_text_reads_as_u64_from_str_does() {
    for s in ["0", "42", "+7", "18446744073709551615", "007"] {
        assert_eq!(parse_u64_exec(s), s.parse::<u64>().ok(), "{}", s);
    }
    for s in ["", "+", "-1", "-0", " 1", "1 ", "1.0", "18446744073709551616", "99999999999999999999999", "١"] {
        assert_eq!(parse_u64_exec(s), None, "{}", s);
        assert_eq!(s.parse::<u64>().ok(), None, "{}", s);
    }
}
