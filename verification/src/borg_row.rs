//! One row of a Borg cluster trace: which events change the fleet, which
//! rows are dropped, and where the CPU request sits in the resource-request
//! text.
//!
//! Reading the CSV file and turning the CPU text into a number happen
//! outside; what a row means is decided here.

use vstd::prelude::*;
use vstd::std_specs::iter::IteratorSpec;

use crate::load::{MachineId, Mass};
use crate::replay::{EventKind, ParsedEvent};

verus! {

/// The characters of `s`, in order.
pub(crate) fn chars_of(s: &str) -> (v: Vec<char>)
    ensures
        v@ == s@,
{
    let mut v: Vec<char> = Vec::new();
    let chars = s.chars();
    assert(IteratorSpec::remaining(&chars) == s@) by {
        broadcast use vstd::string::axiom_spec_iter;
    }
    for c in it: chars
        invariant
            it.seq() == s@,
            v@ == it.seq().take(it.index()),
    {
        assert(it.seq().take(it.index() + 1) == it.seq().take(it.index()).push(c));
        v.push(c);
    }
    assert(v@ =~= s@);
    v
}

/// `key` occurs in `s` starting at index `i`.
pub open spec fn occurs_at(s: Seq<char>, key: Seq<char>, i: int) -> bool {
    &&& 0 <= i
    &&& i + key.len() <= s.len()
    &&& s.subrange(i, i + key.len()) == key
}

/// Whether `key` occurs in `s` at index `i` (`i + key.len() <= s.len()`).
fn occurs_at_exec(s: &Vec<char>, key: &Vec<char>, i: usize) -> (r: bool)
    requires
        key@.len() <= s@.len(),
        i <= s@.len() - key@.len(),
    ensures
        r == occurs_at(s@, key@, i as int),
{
    let k = key.len();
    let n = s.len();
    let mut j: usize = 0;
    while j < k
        invariant
            k == key@.len(),
            n == s@.len(),
            key@.len() <= s@.len(),
            i <= s@.len() - key@.len(),
            j <= k,
            forall|t: int| 0 <= t < j ==> s@[i + t] == key@[t],
        decreases k - j,
    {
        if s[i + j] != key[j] {
            assert(s@.subrange(i as int, i + k)[j as int] != key@[j as int]);
            return false;
        }
        j += 1;
    }
    assert(s@.subrange(i as int, i + k) =~= key@);
    true
}

/// `a` and `b` hold the same characters.
fn same_chars(a: &Vec<char>, b: &Vec<char>) -> (r: bool)
    ensures
        r == (a@ == b@),
{
    if a.len() != b.len() {
        return false;
    }
    let r = occurs_at_exec(a, b, 0);
    proof {
        assert(a@.subrange(0, b@.len() as int) =~= a@);
    }
    r
}

/// The kind of a trace event name: `SCHEDULE` places or moves an instance;
/// `FINISH`, `FAIL`, `KILL`, `LOST` and `EVICT` remove it; every other name
/// leaves the fleet unchanged.
pub open spec fn spec_event_kind(name: Seq<char>) -> Option<EventKind> {
    if name == "SCHEDULE"@ {
        Some(EventKind::Schedule)
    } else if name == "FINISH"@ || name == "FAIL"@ || name == "KILL"@ || name == "LOST"@ || name
        == "EVICT"@ {
        Some(EventKind::Remove)
    } else {
        None
    }
}

/// Decides [`spec_event_kind`].
pub fn event_kind(name: &str) -> (r: Option<EventKind>)
    ensures
        r == spec_event_kind(name@),
{
    let n = chars_of(name);
    if same_chars(&n, &chars_of("SCHEDULE")) {
        return Some(EventKind::Schedule);
    }
    let finish = same_chars(&n, &chars_of("FINISH"));
    let fail = same_chars(&n, &chars_of("FAIL"));
    let kill = same_chars(&n, &chars_of("KILL"));
    let lost = same_chars(&n, &chars_of("LOST"));
    let evict = same_chars(&n, &chars_of("EVICT"));
    if finish || fail || kill || lost || evict {
        Some(EventKind::Remove)
    } else {
        None
    }
}

/// The machine a row names; a missing id reads as machine 0.
pub open spec fn row_machine(machine: Option<u64>) -> MachineId {
    match machine {
        Some(m) => MachineId(m),
        None => MachineId(0),
    }
}

/// A row is dropped when it schedules onto a missing or zero machine id, or
/// schedules no CPU.
pub open spec fn row_dropped(kind: EventKind, machine: Option<u64>, mass: u64) -> bool {
    kind == EventKind::Schedule && (machine is None || machine == Some(0u64) || mass == 0)
}

/// The event a trace row of `kind` yields. A `Schedule` row keeps its
/// machine and CPU `mass`; a `Remove` row keeps its machine (0 when
/// missing), carries no mass, and is found again by its instance.
pub fn row_event(
    kind: EventKind,
    time: u64,
    instance: String,
    machine: Option<u64>,
    mass: u64,
) -> (r: Option<ParsedEvent>)
    ensures
        r is None <==> row_dropped(kind, machine, mass),
        r matches Some(e) ==> {
            &&& e.time == time
            &&& e.kind == kind
            &&& e.instance@ == instance@
            &&& e.machine == row_machine(machine)
            &&& e.mass.0[0] == (if kind == EventKind::Schedule {
                mass
            } else {
                0
            })
        },
{
    let id = match machine {
        Some(m) => m,
        None => 0,
    };
    match kind {
        EventKind::Schedule => {
            if id == 0 || mass == 0 {
                None
            } else {
                Some(ParsedEvent { time, kind, instance, machine: MachineId(id), mass: Mass([mass]) })
            }
        },
        EventKind::Remove => Some(
            ParsedEvent { time, kind, instance, machine: MachineId(id), mass: Mass([0]) },
        ),
    }
}

/// Unicode `White_Space`, the characters `str::trim_start` removes.
pub open spec fn is_space(c: char) -> bool {
    let x = c as int;
    ||| 9 <= x <= 13
    ||| x == 32
    ||| x == 0x85
    ||| x == 0xa0
    ||| x == 0x1680
    ||| 0x2000 <= x <= 0x200a
    ||| x == 0x2028
    ||| x == 0x2029
    ||| x == 0x202f
    ||| x == 0x205f
    ||| x == 0x3000
}

fn is_space_exec(c: char) -> (r: bool)
    ensures
        r == is_space(c),
{
    let x = c as u32;
    (9 <= x && x <= 13) || x == 32 || x == 0x85 || x == 0xa0 || x == 0x1680 || (0x2000 <= x && x
        <= 0x200a) || x == 0x2028 || x == 0x2029 || x == 0x202f || x == 0x205f || x == 0x3000
}

/// A character of a number's text: an ASCII digit, `.`, `e`, `E`, `-` or `+`.
pub open spec fn is_number_char(c: char) -> bool {
    let x = c as int;
    (48 <= x <= 57) || x == 46 || x == 101 || x == 69 || x == 45 || x == 43
}

fn is_number_char_exec(c: char) -> (r: bool)
    ensures
        r == is_number_char(c),
{
    let x = c as u32;
    (48 <= x && x <= 57) || x == 46 || x == 101 || x == 69 || x == 45 || x == 43
}

/// The first index at or after `i` where `key` occurs in `s`.
pub open spec fn first_occurrence(s: Seq<char>, key: Seq<char>, i: int) -> Option<int>
    decreases s.len() + 1 - i,
{
    if i < 0 || i + key.len() > s.len() {
        None
    } else if occurs_at(s, key, i) {
        Some(i)
    } else {
        first_occurrence(s, key, i + 1)
    }
}

/// The first index at or after `i` that is not whitespace (or the end).
pub open spec fn skip_spaces(s: Seq<char>, i: int) -> int
    decreases s.len() - i,
{
    if 0 <= i < s.len() && is_space(s[i]) {
        skip_spaces(s, i + 1)
    } else {
        i
    }
}

/// The end of the run of number characters starting at `i`.
pub open spec fn number_end(s: Seq<char>, i: int) -> int
    decreases s.len() - i,
{
    if 0 <= i < s.len() && is_number_char(s[i]) {
        number_end(s, i + 1)
    } else {
        i
    }
}

/// The key that introduces the CPU request.
pub open spec fn cpus_key() -> Seq<char> {
    "'cpus':"@
}

/// The text of the CPU request in a resource-request string: after the
/// first `'cpus':`, past any whitespace, the longest run of number
/// characters. `None` when the key does not occur.
pub open spec fn spec_cpus_field(s: Seq<char>) -> Option<Seq<char>> {
    match first_occurrence(s, cpus_key(), 0) {
        None => None,
        Some(i) => {
            let b = skip_spaces(s, i + cpus_key().len());
            Some(s.subrange(b, number_end(s, b)))
        },
    }
}

proof fn lemma_skip_spaces(s: Seq<char>, i: int)
    requires
        0 <= i <= s.len(),
    ensures
        i <= skip_spaces(s, i) <= s.len(),
    decreases s.len() - i,
{
    if i < s.len() && is_space(s[i]) {
        lemma_skip_spaces(s, i + 1);
    }
}

proof fn lemma_number_end(s: Seq<char>, i: int)
    requires
        0 <= i <= s.len(),
    ensures
        i <= number_end(s, i) <= s.len(),
    decreases s.len() - i,
{
    if i < s.len() && is_number_char(s[i]) {
        lemma_number_end(s, i + 1);
    }
}

/// Finds [`spec_cpus_field`].
pub fn cpus_field(s: &str) -> (r: Option<Vec<char>>)
    ensures
        r is None <==> spec_cpus_field(s@) is None,
        r matches Some(t) ==> spec_cpus_field(s@) == Some(t@),
{
    let text = chars_of(s);
    let key = chars_of("'cpus':");
    proof {
        reveal_strlit("'cpus':");
    }
    let n = text.len();
    let k = key.len();
    assert(k == 7);
    if k > n {
        return None;
    }
    let mut i: usize = 0;
    let mut found = false;
    while i <= n - k
        invariant_except_break
            !found,
            n == text@.len(),
            k == key@.len(),
            k <= n,
            first_occurrence(text@, key@, 0) == first_occurrence(text@, key@, i as int),
        invariant
            n == text@.len(),
            k == key@.len(),
            k == 7,
            k <= n,
        ensures
            found ==> first_occurrence(text@, key@, 0) == Some(i as int) && i + k <= n,
            !found ==> first_occurrence(text@, key@, 0) is None,
        decreases n - k + 1 - i,
    {
        if occurs_at_exec(&text, &key, i) {
            found = true;
            break;
        }
        i += 1;
    }
    if !found {
        return None;
    }
    let mut b: usize = i + k;
    proof {
        lemma_skip_spaces(text@, b as int);
    }
    while b < n && is_space_exec(text[b])
        invariant
            n == text@.len(),
            i + k <= b <= n,
            skip_spaces(text@, (i + k) as int) == skip_spaces(text@, b as int),
        decreases n - b,
    {
        b += 1;
    }
    let mut c: usize = b;
    while c < n && is_number_char_exec(text[c])
        invariant
            n == text@.len(),
            b <= c <= n,
            number_end(text@, b as int) == number_end(text@, c as int),
        decreases n - c,
    {
        c += 1;
    }
    let mut t: Vec<char> = Vec::new();
    let mut j: usize = b;
    while j < c
        invariant
            n == text@.len(),
            b <= j <= c <= n,
            t@ == text@.subrange(b as int, j as int),
        decreases c - j,
    {
        t.push(text[j]);
        assert(text@.subrange(b as int, j + 1) =~= text@.subrange(b as int, j as int).push(
            text@[j as int],
        ));
        j += 1;
    }
    Some(t)
}

} // verus!
