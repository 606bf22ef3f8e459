//! Reading a Borg-trace CSV: the header names the columns, each record
//! becomes a row of the fields the classifier needs, and records whose event
//! does not change the fleet are counted as dropped.
//!
//! The CSV grammar itself (quoting, delimiters, record boundaries) is the
//! `csv` crate's; what the trace's columns mean is decided here.

use vstd::prelude::*;
use vstd::string::StringExecFns;

use crate::borg_row::{chars_of, event_kind, spec_event_kind};
use crate::replay::EventKind;

verus! {

/// An ASCII decimal digit.
pub open spec fn is_digit(c: char) -> bool {
    48 <= c as int <= 57
}

/// The value of a run of decimal digits.
pub open spec fn decimal(d: Seq<char>) -> int
    decreases d.len(),
{
    if d.len() == 0 {
        0
    } else {
        decimal(d.drop_last()) * 10 + (d.last() as int - 48)
    }
}

/// The digit part of an unsigned integer's text: without a leading `+`.
pub open spec fn unsigned_digits(s: Seq<char>) -> Seq<char> {
    if s.len() > 0 && s[0] == '+' {
        s.drop_first()
    } else {
        s
    }
}

/// The value of a digit part: at least one ASCII digit, fitting 64 bits.
pub open spec fn digits_value(d: Seq<char>) -> Option<u64> {
    if d.len() > 0 && (forall|i: int| 0 <= i < d.len() ==> is_digit(#[trigger] d[i])) && decimal(d)
        <= u64::MAX {
        Some(decimal(d) as u64)
    } else {
        None
    }
}

/// An unsigned 64-bit integer in text, as `u64::from_str` reads it: an
/// optional `+`, then at least one ASCII digit, with a value that fits.
pub open spec fn parse_u64(s: Seq<char>) -> Option<u64> {
    digits_value(unsigned_digits(s))
}

proof fn lemma_decimal_prefix(d: Seq<char>, k: int)
    requires
        0 <= k <= d.len(),
        forall|i: int| 0 <= i < d.len() ==> is_digit(#[trigger] d[i]),
    ensures
        0 <= decimal(d.take(k)) <= decimal(d),
    decreases d.len(),
{
    if k == d.len() {
        assert(d.take(k) =~= d);
        if d.len() > 0 {
            lemma_decimal_prefix(d.drop_last(), 0);
        } else {
        }
    } else {
        let l = d.drop_last();
        assert forall|i: int| 0 <= i < l.len() implies is_digit(#[trigger] l[i]) by {
            assert(l[i] == d[i]);
        }
        lemma_decimal_prefix(l, k);
        assert(l.take(k) =~= d.take(k));
        assert(is_digit(d[d.len() - 1]));
    }
}

fn is_digit_exec(c: char) -> (r: bool)
    ensures
        r == is_digit(c),
{
    let x = c as u32;
    48 <= x && x <= 57
}

fn digit_value(c: char) -> (r: u64)
    requires
        is_digit(c),
    ensures
        r == c as int - 48,
{
    let x = c as u32;
    (x - 48) as u64
}

/// Decides [`parse_u64`].
pub fn parse_u64_exec(s: &str) -> (r: Option<u64>)
    ensures
        r == parse_u64(s@),
{
    let c = chars_of(s);
    let n = c.len();
    let start: usize = if n > 0 && c[0] == '+' {
        1
    } else {
        0
    };
    let ghost d = c@.subrange(start as int, n as int);
    proof {
        if start == 1 {
            assert(d =~= s@.drop_first());
        } else {
            assert(d =~= s@);
        }
    }
    assert(d == unsigned_digits(s@));
    if start == n {
        return None;
    }
    let mut v: u64 = 0;
    let mut i: usize = start;
    while i < n
        invariant
            n == c@.len(),
            start <= i <= n,
            d == c@.subrange(start as int, n as int),
            d == unsigned_digits(s@),
            forall|j: int| 0 <= j < i - start ==> is_digit(#[trigger] d[j]),
            v == decimal(d.take(i - start)),
        decreases n - i,
    {
        let ch = c[i];
        assert(d[i - start] == ch);
        if !is_digit_exec(ch) {
            assert(!is_digit(d[i - start]));
            assert(digits_value(d) is None);
            return None;
        }
        assert(d.take(i - start + 1).drop_last() =~= d.take(i - start));
        assert(d.take(i - start + 1).last() == c@[i as int]);
        let w: u128 = v as u128 * 10 + digit_value(ch) as u128;
        if w > u64::MAX as u128 {
            proof {
                if forall|j: int| 0 <= j < d.len() ==> is_digit(#[trigger] d[j]) {
                    lemma_decimal_prefix(d, i - start + 1);
                    assert(decimal(d) > u64::MAX);
                }
            }
            assert(digits_value(d) is None);
            return None;
        }
        v = w as u64;
        i += 1;
    }
    assert(d.take(i - start) =~= d);
    Some(v)
}


/// A column the trace reader needs.
#[derive(Clone, Copy, Debug, PartialEq, Eq, Structural)]
pub enum TraceColumn {
    Time,
    Event,
    MachineId,
    CollectionId,
    InstanceIndex,
    ResourceRequest,
}

/// Why a trace could not be read.
#[derive(Clone, Copy, Debug, PartialEq, Eq, Structural)]
pub enum TraceError {
    /// The bytes are not a well-formed CSV table.
    Unreadable,
    /// The header names no column of this name.
    MissingColumn(TraceColumn),
}

/// The header name of a column.
pub open spec fn column_name(c: TraceColumn) -> Seq<char> {
    match c {
        TraceColumn::Time => "time"@,
        TraceColumn::Event => "event"@,
        TraceColumn::MachineId => "machine_id"@,
        TraceColumn::CollectionId => "collection_id"@,
        TraceColumn::InstanceIndex => "instance_index"@,
        TraceColumn::ResourceRequest => "resource_request"@,
    }
}

/// The header name of a column, as text.
pub fn column_name_exec(c: TraceColumn) -> (r: String)
    ensures
        r@ == column_name(c),
{
    match c {
        TraceColumn::Time => "time".to_owned(),
        TraceColumn::Event => "event".to_owned(),
        TraceColumn::MachineId => "machine_id".to_owned(),
        TraceColumn::CollectionId => "collection_id".to_owned(),
        TraceColumn::InstanceIndex => "instance_index".to_owned(),
        TraceColumn::ResourceRequest => "resource_request".to_owned(),
    }
}

/// The first position of `name` in `header`, if any.
#[verifier::opaque]
pub open spec fn column_of(header: Seq<Seq<char>>, name: Seq<char>) -> Option<int> {
    if exists|i: int| 0 <= i < header.len() && header[i] == name {
        Some(
            choose|i: int|
                0 <= i < header.len() && header[i] == name && forall|j: int|
                    0 <= j < i ==> header[j] != name,
        )
    } else {
        None
    }
}

/// Decides [`column_of`] for a column's name.
fn find_column(header: &Vec<String>, c: TraceColumn) -> (r: Option<usize>)
    ensures
        match r {
            Some(i) => header_column(header.deep_view(), c) == Some(i as int),
            None => header_column(header.deep_view(), c) is None,
        },
{
    reveal(column_of);
    let name = column_name_exec(c);
    let ghost hv = header.deep_view();
    let mut i: usize = 0;
    while i < header.len()
        invariant
            i <= header@.len(),
            hv == header.deep_view(),
            name@ == column_name(c),
            forall|j: int| 0 <= j < i ==> hv[j] != name@,
        decreases header@.len() - i,
    {
        if header[i] == name {
            reveal(column_of);
            assert(hv[i as int] == name@);
            let ghost k = choose|k: int|
                0 <= k < hv.len() && hv[k] == name@ && forall|j: int| 0 <= j < k ==> hv[j] != name@;
            assert(k == i);
            return Some(i);
        }
        i += 1;
    }
    None
}

/// The column positions of a trace header.
#[derive(Clone, Copy, Debug, PartialEq, Eq)]
pub struct Columns {
    pub time: usize,
    pub event: usize,
    pub machine: usize,
    pub collection: usize,
    pub index: usize,
    pub request: usize,
}

/// The position of column `t` in `header`.
pub open spec fn header_column(header: Seq<Seq<char>>, t: TraceColumn) -> Option<int> {
    column_of(header, column_name(t))
}

/// The columns of `header`, checked in the order time, event, machine_id,
/// collection_id, instance_index, resource_request; the first one missing
/// is the error.
pub open spec fn spec_columns(header: Seq<Seq<char>>) -> Result<Columns, TraceError> {
    let c = |t: TraceColumn| header_column(header, t);
    if c(TraceColumn::Time) is None {
        Err(TraceError::MissingColumn(TraceColumn::Time))
    } else if c(TraceColumn::Event) is None {
        Err(TraceError::MissingColumn(TraceColumn::Event))
    } else if c(TraceColumn::MachineId) is None {
        Err(TraceError::MissingColumn(TraceColumn::MachineId))
    } else if c(TraceColumn::CollectionId) is None {
        Err(TraceError::MissingColumn(TraceColumn::CollectionId))
    } else if c(TraceColumn::InstanceIndex) is None {
        Err(TraceError::MissingColumn(TraceColumn::InstanceIndex))
    } else if c(TraceColumn::ResourceRequest) is None {
        Err(TraceError::MissingColumn(TraceColumn::ResourceRequest))
    } else {
        Ok(
            Columns {
                time: c(TraceColumn::Time)->0 as usize,
                event: c(TraceColumn::Event)->0 as usize,
                machine: c(TraceColumn::MachineId)->0 as usize,
                collection: c(TraceColumn::CollectionId)->0 as usize,
                index: c(TraceColumn::InstanceIndex)->0 as usize,
                request: c(TraceColumn::ResourceRequest)->0 as usize,
            },
        )
    }
}

/// Decides [`spec_columns`].
fn columns(header: &Vec<String>) -> (r: Result<Columns, TraceError>)
    ensures
        r == spec_columns(header.deep_view()),
{
    let time = match find_column(header, TraceColumn::Time) {
        Some(i) => i,
        None => return Err(TraceError::MissingColumn(TraceColumn::Time)),
    };
    let event = match find_column(header, TraceColumn::Event) {
        Some(i) => i,
        None => return Err(TraceError::MissingColumn(TraceColumn::Event)),
    };
    let machine = match find_column(header, TraceColumn::MachineId) {
        Some(i) => i,
        None => return Err(TraceError::MissingColumn(TraceColumn::MachineId)),
    };
    let collection = match find_column(header, TraceColumn::CollectionId) {
        Some(i) => i,
        None => return Err(TraceError::MissingColumn(TraceColumn::CollectionId)),
    };
    let index = match find_column(header, TraceColumn::InstanceIndex) {
        Some(i) => i,
        None => return Err(TraceError::MissingColumn(TraceColumn::InstanceIndex)),
    };
    let request = match find_column(header, TraceColumn::ResourceRequest) {
        Some(i) => i,
        None => return Err(TraceError::MissingColumn(TraceColumn::ResourceRequest)),
    };
    Ok(Columns { time, event, machine, collection, index, request })
}


/// One trace record read for the classifier: the event kind (only events
/// that change the fleet are kept), the time, the instance key
/// `collection_id|instance_index`, the machine id and the resource-request
/// text.
#[derive(Clone, Debug)]
pub struct TraceRow {
    pub kind: EventKind,
    pub time: u64,
    pub instance: String,
    pub machine: Option<u64>,
    pub request: String,
}

/// The mathematical value of a [`TraceRow`].
pub struct RowView {
    pub kind: EventKind,
    pub time: u64,
    pub instance: Seq<char>,
    pub machine: Option<u64>,
    pub request: Seq<char>,
}

impl View for TraceRow {
    type V = RowView;

    open spec fn view(&self) -> RowView {
        RowView {
            kind: self.kind,
            time: self.time,
            instance: self.instance@,
            machine: self.machine,
            request: self.request@,
        }
    }
}

/// Field `c` of a record; empty when the record is shorter.
pub open spec fn field_of(rec: Seq<Seq<char>>, c: int) -> Seq<char> {
    if 0 <= c < rec.len() {
        rec[c]
    } else {
        Seq::empty()
    }
}

/// What a record yields: `None` when its event leaves the fleet unchanged;
/// otherwise the row, with time 0 when the time does not parse.
pub open spec fn row_of(rec: Seq<Seq<char>>, cols: Columns) -> Option<RowView> {
    match spec_event_kind(field_of(rec, cols.event as int)) {
        None => None,
        Some(kind) => Some(
            RowView {
                kind,
                time: match parse_u64(field_of(rec, cols.time as int)) {
                    Some(t) => t,
                    None => 0,
                },
                instance: field_of(rec, cols.collection as int) + "|"@ + field_of(
                    rec,
                    cols.index as int,
                ),
                machine: parse_u64(field_of(rec, cols.machine as int)),
                request: field_of(rec, cols.request as int),
            },
        ),
    }
}

/// The rows of the records `body`, and how many records were dropped.
pub open spec fn rows_of(body: Seq<Seq<Seq<char>>>, cols: Columns) -> (Seq<RowView>, nat)
    decreases body.len(),
{
    if body.len() == 0 {
        (Seq::empty(), 0)
    } else {
        let (rs, d) = rows_of(body.drop_last(), cols);
        match row_of(body.last(), cols) {
            Some(r) => (rs.push(r), d),
            None => (rs, d + 1),
        }
    }
}

/// A table read as a trace: the first record is the header, the rest are
/// records.
pub open spec fn spec_table_rows(all: Seq<Seq<Seq<char>>>) -> Result<(Seq<RowView>, nat), TraceError> {
    let header = if all.len() > 0 {
        all[0]
    } else {
        Seq::empty()
    };
    let body = if all.len() > 0 {
        all.drop_first()
    } else {
        Seq::empty()
    };
    match spec_columns(header) {
        Err(e) => Err(e),
        Ok(cols) => Ok(rows_of(body, cols)),
    }
}

/// The mathematical value of a reader's result.
pub open spec fn rows_view(r: Result<(Vec<TraceRow>, u64), TraceError>) -> Result<
    (Seq<RowView>, nat),
    TraceError,
> {
    match r {
        Ok((rows, d)) => Ok((rows@.map_values(|x: TraceRow| x@), d as nat)),
        Err(e) => Err(e),
    }
}

/// Field `c` of a record, copied.
fn field(rec: &Vec<String>, c: usize) -> (r: String)
    ensures
        r@ == field_of(rec.deep_view(), c as int),
{
    if c < rec.len() {
        rec[c].clone()
    } else {
        String::new()
    }
}

/// Decides [`row_of`].
fn row_from(rec: &Vec<String>, cols: Columns) -> (r: Option<TraceRow>)
    ensures
        match r {
            Some(t) => row_of(rec.deep_view(), cols) == Some(t@),
            None => row_of(rec.deep_view(), cols) is None,
        },
{
    let event = field(rec, cols.event);
    let kind = match event_kind(event.as_str()) {
        Some(k) => k,
        None => return None,
    };
    let time_text = field(rec, cols.time);
    let time = match parse_u64_exec(time_text.as_str()) {
        Some(t) => t,
        None => 0,
    };
    let mut instance = field(rec, cols.collection);
    instance.append("|");
    let index = field(rec, cols.index);
    instance.append(index.as_str());
    let machine_text = field(rec, cols.machine);
    let machine = parse_u64_exec(machine_text.as_str());
    let request = field(rec, cols.request);
    let row = TraceRow { kind, time, instance, machine, request };
    assert(row@ == row_of(rec.deep_view(), cols)->0);
    Some(row)
}


/// Read a table as a trace: find the columns in the first record (the
/// header), then turn each further record into a row or count it dropped.
pub fn rows_from_records(records: &Vec<Vec<String>>) -> (r: Result<(Vec<TraceRow>, u64), TraceError>)
    ensures
        rows_view(r) == spec_table_rows(records.deep_view()),
{
    let ghost all = records.deep_view();
    let n = records.len();
    if n == 0 {
        let empty: Vec<String> = Vec::new();
        assert(empty.deep_view() =~= Seq::<Seq<char>>::empty());
        return match columns(&empty) {
            Err(e) => Err(e),
            Ok(_) => {
                let rows: Vec<TraceRow> = Vec::new();
                assert(rows@.map_values(|x: TraceRow| x@) =~= Seq::<RowView>::empty());
                Ok((rows, 0))
            },
        };
    }
    let cols = match columns(&records[0]) {
        Ok(c) => c,
        Err(e) => return Err(e),
    };
    let ghost body = all.drop_first();
    proof {
        assert(rows_of(body.take(0), cols) == (Seq::<RowView>::empty(), 0nat));
    }
    let mut rows: Vec<TraceRow> = Vec::new();
    let mut dropped: u64 = 0;
    let mut i: usize = 1;
    while i < n
        invariant
            n == records@.len(),
            all == records.deep_view(),
            body == all.drop_first(),
            1 <= i <= n,
            dropped <= i,
            (rows@.map_values(|x: TraceRow| x@), dropped as nat) == rows_of(
                body.take(i - 1),
                cols,
            ),
        decreases n - i,
    {
        assert(body.take(i as int).drop_last() =~= body.take(i - 1));
        assert(body.take(i as int).last() == records[i as int].deep_view());
        match row_from(&records[i], cols) {
            Some(row) => {
                let ghost old_rows = rows@;
                rows.push(row);
                assert(rows@.map_values(|x: TraceRow| x@) =~= old_rows.map_values(
                    |x: TraceRow| x@,
                ).push(row@));
            },
            None => {
                dropped = dropped + 1;
            },
        }
        i += 1;
    }
    assert(body.take(n - 1) =~= body);
    Ok((rows, dropped))
}

/// The table the `csv` crate reads from `text`, with its header first, or
/// `None` where it reports an error.
pub uninterp spec fn csv_records(text: Seq<u8>) -> Option<Seq<Seq<Seq<char>>>>;

/// Reads `text` with `csv::Reader::from_reader` (a header record, comma
/// delimited, records of equal length), returning the header followed by
/// every record, each field as a `String`. Trusted: the contract claims
/// only that the result is the one named by [`csv_records`] for these
/// bytes; which tables the grammar accepts is left to the crate.
#[verifier::external_body]
fn read_records(text: &[u8]) -> (r: Option<Vec<Vec<String>>>)
    ensures
        r.deep_view() == csv_records(text@),
{
    let mut rdr = csv::Reader::from_reader(text);
    let mut header: Vec<String> = Vec::new();
    for f in rdr.headers().ok()?.iter() {
        header.push(f.to_string());
    }
    let mut table: Vec<Vec<String>> = vec![header];
    for rec in rdr.records() {
        let rec = rec.ok()?;
        let mut fields: Vec<String> = Vec::new();
        for f in rec.iter() {
            fields.push(f.to_string());
        }
        table.push(fields);
    }
    Some(table)
}

/// Read the bytes of a trace CSV: `Unreadable` where the `csv` crate
/// rejects them, otherwise [`spec_table_rows`] of the table it reads.
pub fn trace_rows(text: &[u8]) -> (r: Result<(Vec<TraceRow>, u64), TraceError>)
    ensures
        rows_view(r) == match csv_records(text@) {
            Some(all) => spec_table_rows(all),
            None => Err(TraceError::Unreadable),
        },
{
    match read_records(text) {
        None => Err(TraceError::Unreadable),
        Some(table) => rows_from_records(&table),
    }
}

} // verus!
