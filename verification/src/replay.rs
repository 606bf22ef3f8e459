//! Replay: classify a stream of fleet events and apply them through the
//! move algebra.
//!
//! Events are taken in time order (a stable sort). Every machine named by a
//! `Schedule` is registered first, at zero load with a uniform capacity.
//! Then each event is routed into the alphabet: a fresh `Schedule` is a
//! `Place`; a `Schedule` of a tracked instance on another machine is a
//! migration, tried as `HotToCold`, then `Neutral`, then `ColdToHot`; a
//! `Remove` of a tracked instance is a `Remove`. Each event lands in exactly
//! one counter (a `Remove` skipped for insufficient load is counted twice:
//! as a remove and as a well-formedness skip). The replay is pinned to one
//! dimension.

use vstd::prelude::*;
use vstd::hash_map::StringHashMap;
use crate::load::{Capacity, Fleet, MachineId, MachineSpec, Mass};
use crate::move_kind::{
    hot_to_cold_admissible, neutral_admissible, ColdToHot, HotToCold, Neutral, Place, Remove,
};
use crate::trace::{MoveHistory, MoveRecord};

verus! {

/// What kind of state-changing event this is.
#[derive(Clone, Copy, Debug, PartialEq, Eq, Structural)]
pub enum EventKind {
    /// An instance is being scheduled or re-scheduled.
    Schedule,
    /// An instance is being removed.
    Remove,
}

/// One event of a trace, in the form the classifier consumes.
#[derive(Clone, Debug)]
pub struct ParsedEvent {
    /// Microseconds from trace start.
    pub time: u64,
    pub kind: EventKind,
    /// Stable instance identifier.
    pub instance: String,
    /// Destination machine for `Schedule`; ignored for `Remove`.
    pub machine: MachineId,
    /// Resource demand for `Schedule`; ignored for `Remove`.
    pub mass: Mass<1>,
}

/// Classification counters.
#[derive(Clone, Copy, Debug, Default, PartialEq, Eq)]
pub struct Counters {
    pub remove: u64,
    pub remove_unobservable: u64,
    pub place: u64,
    pub hot_to_cold: u64,
    pub neutral: u64,
    pub cold_to_hot: u64,
    /// Removes skipped because the machine held less load than the instance.
    pub well_formedness_skipped: u64,
}

impl Counters {
    /// All counters zero.
    pub fn zero() -> (c: Self)
        ensures
            c == Counters::spec_zero(),
    {
        Counters {
            remove: 0,
            remove_unobservable: 0,
            place: 0,
            hot_to_cold: 0,
            neutral: 0,
            cold_to_hot: 0,
            well_formedness_skipped: 0,
        }
    }

    pub open spec fn spec_zero() -> Self {
        Counters {
            remove: 0,
            remove_unobservable: 0,
            place: 0,
            hot_to_cold: 0,
            neutral: 0,
            cold_to_hot: 0,
            well_formedness_skipped: 0,
        }
    }

    /// Events that ran through the typed-pure paths.
    pub fn applied_typed_pure(&self) -> (r: u64)
        requires
            self.remove + self.hot_to_cold + self.neutral <= u64::MAX,
        ensures
            r == self.remove + self.hot_to_cold + self.neutral,
    {
        self.remove + self.hot_to_cold + self.neutral
    }

    /// Events that ran through the catch-all paths.
    pub fn applied_catch_all(&self) -> (r: u64)
        requires
            self.place + self.cold_to_hot <= u64::MAX,
        ensures
            r == self.place + self.cold_to_hot,
    {
        self.place + self.cold_to_hot
    }

    /// All events the framework applied.
    pub fn applied_total(&self) -> (r: u64)
        requires
            self.remove + self.hot_to_cold + self.neutral + self.place + self.cold_to_hot
                <= u64::MAX,
        ensures
            r == self.remove + self.hot_to_cold + self.neutral + self.place + self.cold_to_hot,
    {
        self.applied_typed_pure() + self.applied_catch_all()
    }
}

/// Tracked state of one scheduled instance.
#[derive(Clone, Copy, Debug)]
pub struct InstanceState {
    pub machine: MachineId,
    pub mass: Mass<1>,
}

/// The classifier's state.
pub struct ReplayState {
    pub fleet: Map<MachineId, MachineSpec<1>>,
    pub instances: Map<Seq<char>, InstanceState>,
    pub history: Seq<MoveRecord<1>>,
    pub counters: Counters,
}

/// What the classifier hands back.
pub struct ReplayOutcome {
    pub fleet: Fleet<1>,
    pub history: MoveHistory<1>,
    pub counters: Counters,
}

/// Index of the first element of `s` strictly later than `t`.
pub open spec fn first_after(s: Seq<ParsedEvent>, t: u64) -> int
    decreases s.len(),
{
    if s.len() == 0 {
        0
    } else if s[0].time > t {
        0
    } else {
        1 + first_after(s.drop_first(), t)
    }
}

/// The stable sort of `s` by time: each event is inserted after every
/// earlier event no later than it.
pub open spec fn sort_by_time(s: Seq<ParsedEvent>) -> Seq<ParsedEvent>
    decreases s.len(),
{
    if s.len() == 0 {
        s
    } else {
        let r = sort_by_time(s.drop_last());
        r.insert(first_after(r, s.last().time), s.last())
    }
}

/// Total mass of the `Schedule` events of `s`.
pub open spec fn schedule_total(s: Seq<ParsedEvent>) -> int
    decreases s.len(),
{
    if s.len() == 0 {
        0
    } else {
        schedule_total(s.drop_last()) + (if s.last().kind is Schedule {
            s.last().mass.0[0] as int
        } else {
            0
        })
    }
}

proof fn lemma_schedule_total_insert(s: Seq<ParsedEvent>, p: int, x: ParsedEvent)
    requires
        0 <= p <= s.len(),
    ensures
        schedule_total(s.insert(p, x)) == schedule_total(s) + (if x.kind is Schedule {
            x.mass.0[0] as int
        } else {
            0
        }),
    decreases s.len(),
{
    if p == s.len() {
        assert(s.insert(p, x).drop_last() =~= s);
    } else {
        assert(s.insert(p, x).drop_last() =~= s.drop_last().insert(p, x));
        lemma_schedule_total_insert(s.drop_last(), p, x);
    }
}

proof fn lemma_first_after_bounds(s: Seq<ParsedEvent>, t: u64)
    ensures
        0 <= first_after(s, t) <= s.len(),
    decreases s.len(),
{
    if s.len() > 0 && s[0].time <= t {
        lemma_first_after_bounds(s.drop_first(), t);
    }
}

/// Sorting keeps the total scheduled mass.
proof fn lemma_sort_schedule_total(s: Seq<ParsedEvent>)
    ensures
        schedule_total(sort_by_time(s)) == schedule_total(s),
        sort_by_time(s).len() == s.len(),
    decreases s.len(),
{
    if s.len() > 0 {
        lemma_sort_schedule_total(s.drop_last());
        let r = sort_by_time(s.drop_last());
        lemma_first_after_bounds(r, s.last().time);
        lemma_schedule_total_insert(r, first_after(r, s.last().time), s.last());
    }
}

proof fn lemma_schedule_total_prefix(s: Seq<ParsedEvent>, i: int)
    requires
        0 <= i <= s.len(),
    ensures
        0 <= schedule_total(s.take(i)) <= schedule_total(s),
    decreases s.len() - i,
{
    if i < s.len() {
        lemma_schedule_total_prefix(s, i + 1);
        assert(s.take(i + 1).drop_last() =~= s.take(i));
        lemma_schedule_total_nonneg(s.take(i));
        assert(schedule_total(s.take(i)) <= schedule_total(s.take(i + 1)));
    } else {
        assert(s.take(i) =~= s);
        lemma_schedule_total_nonneg(s);
    }
}

proof fn lemma_schedule_total_nonneg(s: Seq<ParsedEvent>)
    ensures
        0 <= schedule_total(s),
    decreases s.len(),
{
    if s.len() > 0 {
        lemma_schedule_total_nonneg(s.drop_last());
    }
}

/// Sorts the events by time with std's `slice::sort_by_key`. Trusted: the
/// contract claims what std documents of that sort, that it is stable, i.e.
/// the result is ordered by time and events with equal times keep their
/// input order, which is the sequence [`sort_by_time`] describes.
#[verifier::external_body]
fn sort_events_by_time(events: &mut Vec<ParsedEvent>)
    ensures
        final(events)@ == sort_by_time(old(events)@),
{
    events.sort_by_key(|e| e.time);
}

/// One-dimensional load of `m` (0 if unknown).
pub open spec fn load1(f: Map<MachineId, MachineSpec<1>>, m: MachineId) -> int {
    if f.contains_key(m) {
        f[m].load.0[0] as int
    } else {
        0
    }
}

/// `f` with the load of `m` set to `x`.
pub open spec fn with_load(f: Map<MachineId, MachineSpec<1>>, m: MachineId, x: int) -> Map<
    MachineId,
    MachineSpec<1>,
> {
    f.insert(m, MachineSpec { load: Mass([x as u64]), capacity: f[m].capacity })
}

/// `x` saturated at `u64::MAX`.
pub open spec fn sat(x: int) -> int {
    if x > u64::MAX {
        u64::MAX as int
    } else {
        x
    }
}

/// The state after migrating the tracked instance `key` to `dst`, recorded
/// as `rec` and counted by `counters`.
pub open spec fn migrated(
    s: ReplayState,
    key: Seq<char>,
    dst: MachineId,
    rec: MoveRecord<1>,
    counters: Counters,
) -> ReplayState {
    let prior = s.instances[key];
    let src = prior.machine;
    let w = prior.mass.0[0] as int;
    ReplayState {
        fleet: with_load(
            with_load(s.fleet, src, load1(s.fleet, src) - w),
            dst,
            sat(load1(s.fleet, dst) + w),
        ),
        instances: s.instances.insert(key, InstanceState { machine: dst, mass: prior.mass }),
        history: s.history.push(rec),
        counters,
    }
}

/// The classifier's transition on one event.
pub open spec fn replay_step(s: ReplayState, e: ParsedEvent) -> ReplayState {
    let key = e.instance@;
    let c = s.counters;
    match e.kind {
        EventKind::Schedule => {
            if s.instances.contains_key(key) {
                let prior = s.instances[key];
                let src = prior.machine;
                let dst = e.machine;
                if src == dst {
                    s
                } else {
                    let sl = load1(s.fleet, src);
                    let dl = load1(s.fleet, dst);
                    if sl > dl && hot_to_cold_admissible(s.fleet, src, dst, prior.mass) {
                        migrated(
                            s,
                            key,
                            dst,
                            MoveRecord::HotToCold { source: src, destination: dst, mass: prior.mass },
                            Counters { hot_to_cold: (c.hot_to_cold + 1) as u64, ..c },
                        )
                    } else if sl == dl && neutral_admissible(s.fleet, src, dst, prior.mass) {
                        migrated(
                            s,
                            key,
                            dst,
                            MoveRecord::Neutral { source: src, destination: dst, mass: prior.mass },
                            Counters { neutral: (c.neutral + 1) as u64, ..c },
                        )
                    } else {
                        migrated(
                            s,
                            key,
                            dst,
                            MoveRecord::ColdToHot { source: src, destination: dst, mass: prior.mass },
                            Counters { cold_to_hot: (c.cold_to_hot + 1) as u64, ..c },
                        )
                    }
                }
            } else {
                ReplayState {
                    fleet: with_load(
                        s.fleet,
                        e.machine,
                        sat(load1(s.fleet, e.machine) + e.mass.0[0]),
                    ),
                    instances: s.instances.insert(
                        key,
                        InstanceState { machine: e.machine, mass: e.mass },
                    ),
                    history: s.history.push(MoveRecord::Place { machine: e.machine, mass: e.mass }),
                    counters: Counters { place: (c.place + 1) as u64, ..c },
                }
            }
        },
        EventKind::Remove => {
            if s.instances.contains_key(key) {
                let prior = s.instances[key];
                let m = prior.machine;
                let w = prior.mass.0[0] as int;
                let history = s.history.push(MoveRecord::Remove { machine: m, mass: prior.mass });
                if load1(s.fleet, m) < w {
                    ReplayState {
                        fleet: s.fleet,
                        instances: s.instances.remove(key),
                        history,
                        counters: Counters {
                            well_formedness_skipped: (c.well_formedness_skipped + 1) as u64,
                            remove: (c.remove + 1) as u64,
                            ..c
                        },
                    }
                } else {
                    ReplayState {
                        fleet: with_load(s.fleet, m, load1(s.fleet, m) - w),
                        instances: s.instances.remove(key),
                        history,
                        counters: Counters { remove: (c.remove + 1) as u64, ..c },
                    }
                }
            } else {
                ReplayState {
                    counters: Counters {
                        remove_unobservable: (c.remove_unobservable + 1) as u64,
                        ..c
                    },
                    ..s
                }
            }
        },
    }
}

/// The classifier's state after the events `es`, starting from `s`.
pub open spec fn replay_from(s: ReplayState, es: Seq<ParsedEvent>) -> ReplayState
    decreases es.len(),
{
    if es.len() == 0 {
        s
    } else {
        replay_step(replay_from(s, es.drop_last()), es.last())
    }
}

/// Every machine named by a `Schedule`, at zero load and capacity `capacity`.
pub open spec fn initial_fleet(es: Seq<ParsedEvent>, capacity: u64) -> Map<
    MachineId,
    MachineSpec<1>,
> {
    Map::new(
        |m: MachineId|
            exists|i: int| 0 <= i < es.len() && (#[trigger] es[i]).kind is Schedule && es[i].machine == m,
        |m: MachineId| MachineSpec { load: Mass([0u64]), capacity: Capacity([capacity]) },
    )
}

/// The classification of `es` (already in time order).
pub open spec fn replay(es: Seq<ParsedEvent>, capacity: u64) -> ReplayState {
    replay_from(
        ReplayState {
            fleet: initial_fleet(es, capacity),
            instances: Map::empty(),
            history: Seq::empty(),
            counters: Counters::spec_zero(),
        },
        es,
    )
}

/// Contribution of an instance to machine `m`'s load.
pub open spec fn on_machine(st: InstanceState, m: MachineId) -> int {
    if st.machine == m {
        st.mass.0[0] as int
    } else {
        0
    }
}

/// Load the tracked instances `keys` put on machine `m`.
pub open spec fn inst_total(keys: Seq<Seq<char>>, insts: Map<Seq<char>, InstanceState>, m: MachineId) -> int
    decreases keys.len(),
{
    if keys.len() == 0 {
        0
    } else {
        inst_total(keys.drop_last(), insts, m) + on_machine(insts[keys.last()], m)
    }
}

/// Total load of the tracked instances `keys`.
pub open spec fn grand_total(keys: Seq<Seq<char>>, insts: Map<Seq<char>, InstanceState>) -> int
    decreases keys.len(),
{
    if keys.len() == 0 {
        0
    } else {
        grand_total(keys.drop_last(), insts) + insts[keys.last()].mass.0[0]
    }
}

proof fn lemma_totals_frame(
    keys: Seq<Seq<char>>,
    a: Map<Seq<char>, InstanceState>,
    b: Map<Seq<char>, InstanceState>,
    m: MachineId,
)
    requires
        forall|i: int| 0 <= i < keys.len() ==> a[#[trigger] keys[i]] == b[keys[i]],
    ensures
        inst_total(keys, a, m) == inst_total(keys, b, m),
        grand_total(keys, a) == grand_total(keys, b),
    decreases keys.len(),
{
    if keys.len() > 0 {
        let k = keys.drop_last();
        assert forall|i: int| 0 <= i < k.len() implies a[#[trigger] k[i]] == b[k[i]] by {
            assert(k[i] == keys[i]);
        }
        lemma_totals_frame(k, a, b, m);
        assert(keys.last() == keys[keys.len() - 1]);
    }
}

proof fn lemma_totals_nonneg(keys: Seq<Seq<char>>, insts: Map<Seq<char>, InstanceState>, m: MachineId)
    ensures
        0 <= inst_total(keys, insts, m) <= grand_total(keys, insts),
    decreases keys.len(),
{
    if keys.len() > 0 {
        lemma_totals_nonneg(keys.drop_last(), insts, m);
    }
}

/// Changing the state of one tracked key changes the totals by the difference.
proof fn lemma_totals_update(
    keys: Seq<Seq<char>>,
    insts: Map<Seq<char>, InstanceState>,
    j: int,
    v: InstanceState,
    m: MachineId,
)
    requires
        keys.no_duplicates(),
        0 <= j < keys.len(),
    ensures
        inst_total(keys, insts.insert(keys[j], v), m) == inst_total(keys, insts, m) - on_machine(
            insts[keys[j]],
            m,
        ) + on_machine(v, m),
        grand_total(keys, insts.insert(keys[j], v)) == grand_total(keys, insts)
            - insts[keys[j]].mass.0[0] + v.mass.0[0],
    decreases keys.len(),
{
    let k = keys.drop_last();
    let b = insts.insert(keys[j], v);
    if j == keys.len() - 1 {
        assert forall|i: int| 0 <= i < k.len() implies insts[#[trigger] k[i]] == b[k[i]] by {
            assert(k[i] == keys[i]);
            assert(keys[i] != keys[j]);
        }
        lemma_totals_frame(k, insts, b, m);
    } else {
        assert(k.no_duplicates()) by {
            assert forall|a: int, c: int| 0 <= a < k.len() && 0 <= c < k.len() && a != c implies k[a]
                != k[c] by {
                assert(k[a] == keys[a] && k[c] == keys[c]);
            }
        }
        assert(k[j] == keys[j]);
        lemma_totals_update(k, insts, j, v, m);
        assert(keys.last() != keys[j]);
    }
}

/// Dropping tracked key `j` removes its contribution.
proof fn lemma_totals_remove(
    keys: Seq<Seq<char>>,
    insts: Map<Seq<char>, InstanceState>,
    j: int,
    m: MachineId,
)
    requires
        keys.no_duplicates(),
        0 <= j < keys.len(),
    ensures
        inst_total(keys.remove(j), insts.remove(keys[j]), m) == inst_total(keys, insts, m)
            - on_machine(insts[keys[j]], m),
        grand_total(keys.remove(j), insts.remove(keys[j])) == grand_total(keys, insts)
            - insts[keys[j]].mass.0[0],
    decreases keys.len(),
{
    let r = keys.remove(j);
    let b = insts.remove(keys[j]);
    assert forall|i: int| 0 <= i < r.len() implies insts[#[trigger] r[i]] == b[r[i]] by {
        if i < j {
            assert(r[i] == keys[i]);
        } else {
            assert(r[i] == keys[i + 1]);
        }
    }
    lemma_totals_frame(r, insts, b, m);
    lemma_totals_remove_same(keys, insts, j, m);
}

proof fn lemma_totals_remove_same(
    keys: Seq<Seq<char>>,
    insts: Map<Seq<char>, InstanceState>,
    j: int,
    m: MachineId,
)
    requires
        0 <= j < keys.len(),
    ensures
        inst_total(keys.remove(j), insts, m) == inst_total(keys, insts, m) - on_machine(
            insts[keys[j]],
            m,
        ),
        grand_total(keys.remove(j), insts) == grand_total(keys, insts) - insts[keys[j]].mass.0[0],
    decreases keys.len(),
{
    if j == keys.len() - 1 {
        assert(keys.remove(j) =~= keys.drop_last());
    } else {
        assert(keys.remove(j).drop_last() =~= keys.drop_last().remove(j));
        assert(keys.remove(j).last() == keys.last());
        lemma_totals_remove_same(keys.drop_last(), insts, j, m);
        assert(keys.drop_last()[j] == keys[j]);
    }
}

/// Appending a fresh key adds its contribution.
proof fn lemma_totals_push(
    keys: Seq<Seq<char>>,
    insts: Map<Seq<char>, InstanceState>,
    key: Seq<char>,
    v: InstanceState,
    m: MachineId,
)
    requires
        !keys.contains(key),
    ensures
        inst_total(keys.push(key), insts.insert(key, v), m) == inst_total(keys, insts, m)
            + on_machine(v, m),
        grand_total(keys.push(key), insts.insert(key, v)) == grand_total(keys, insts)
            + v.mass.0[0],
{
    let b = insts.insert(key, v);
    assert forall|i: int| 0 <= i < keys.len() implies insts[#[trigger] keys[i]] == b[keys[i]] by {
        assert(keys[i] != key);
    }
    lemma_totals_frame(keys, insts, b, m);
    assert(keys.push(key).drop_last() =~= keys);
}

/// The classifier's invariant: the fleet's loads are exactly the loads of
/// the tracked instances, every tracked instance sits on a known machine,
/// and the tracked mass is bounded by the scheduled mass so far.
spec fn replay_inv(
    st: ReplayState,
    keys: Seq<Seq<char>>,
    bound: int,
) -> bool {
    &&& keys.no_duplicates()
    &&& forall|k: Seq<char>| st.instances.contains_key(k) <==> keys.contains(k)
    &&& forall|m: MachineId| #[trigger] st.fleet.contains_key(m) ==> load1(st.fleet, m) == inst_total(
        keys,
        st.instances,
        m,
    )
    &&& forall|k: Seq<char>|
        #[trigger] st.instances.contains_key(k) ==> st.fleet.contains_key(st.instances[k].machine)
    &&& grand_total(keys, st.instances) <= bound
}

/// Classify `events` (stably sorted by time first) and apply them through the
/// move algebra on a fleet of uniform `capacity`. The total scheduled mass
/// must fit in a word, so that no machine's load saturates. The bookkeeping
/// never diverges from the fleet: no removal is ever skipped.
pub fn classify_events(events: Vec<ParsedEvent>, capacity: u64) -> (r: ReplayOutcome)
    requires
        schedule_total(events@) <= u64::MAX,
    ensures
        r.fleet.wf(),
        ({
            let st = replay(sort_by_time(events@), capacity);
            &&& r.fleet@ == st.fleet
            &&& r.history@ == st.history
            &&& r.counters == st.counters
        }),
        r.counters.well_formedness_skipped == 0,
{
    let mut events = events;
    let ghost orig = events@;
    sort_events_by_time(&mut events);
    proof {
        lemma_sort_schedule_total(orig);
    }
    let ghost es = events@;
    let n = events.len();
    let mut fleet: Fleet<1> = Fleet::new();
    let mut i: usize = 0;
    while i < n
        invariant
            n == events@.len(),
            events@ == es,
            i <= n,
            fleet.wf(),
            fleet@ == initial_fleet(es.take(i as int), capacity),
        decreases n - i,
    {
        let ev = &events[i];
        if ev.kind == EventKind::Schedule && fleet.capacity_of(ev.machine).is_none() {
            fleet.add_machine(ev.machine, Capacity([capacity]), Mass::zero());
        }
        proof {
            let t1 = es.take(i + 1);
            let t0 = es.take(i as int);
            let next = initial_fleet(t1, capacity);
            let prev = initial_fleet(t0, capacity);
            assert forall|m: MachineId| #[trigger] next.contains_key(m) <==> fleet@.contains_key(m) by {
                if next.contains_key(m) {
                    let j = choose|j: int|
                        0 <= j < t1.len() && (#[trigger] t1[j]).kind is Schedule && t1[j].machine == m;
                    if j < i {
                        assert(t0[j] == es[j]);
                    }
                }
                if prev.contains_key(m) {
                    let j = choose|j: int|
                        0 <= j < t0.len() && (#[trigger] t0[j]).kind is Schedule && t0[j].machine == m;
                    assert(t1[j] == es[j]);
                }
                if ev.kind == EventKind::Schedule && m == ev.machine {
                    assert(t1[i as int] == es[i as int]);
                }
            }
            assert forall|m: MachineId| #[trigger] fleet@.contains_key(m) implies fleet@[m] == next[m] by {
                assert(next.contains_key(m));
                assert(next[m].load.0[0] == 0);
                assert(fleet@[m].load.0[0] == 0);
                assert(fleet@[m].load.0 =~= next[m].load.0);
                assert(fleet@[m].capacity.0 =~= next[m].capacity.0);
            }
            assert(fleet@ =~= next);
        }
        i += 1;
    }
    assert(es.take(n as int) =~= es);
    let ghost init = ReplayState {
        fleet: fleet@,
        instances: Map::empty(),
        history: Seq::empty(),
        counters: Counters::spec_zero(),
    };
    let mut insts: StringHashMap<InstanceState> = StringHashMap::new();
    let ghost mut keys: Seq<Seq<char>> = Seq::empty();
    let mut history: MoveHistory<1> = MoveHistory::new();
    let mut counters = Counters::zero();
    proof {
        lemma_schedule_total_prefix(es, 0);
    }
    let mut i: usize = 0;
    while i < n
        invariant
            n == events@.len(),
            events@ == es,
            schedule_total(es) <= u64::MAX,
            i <= n,
            fleet.wf(),
            init.fleet == initial_fleet(es, capacity),
            init.instances == Map::<Seq<char>, InstanceState>::empty(),
            init.history == Seq::<MoveRecord<1>>::empty(),
            init.counters == Counters::spec_zero(),
            forall|j: int|
                0 <= j < n && (#[trigger] es[j]).kind is Schedule ==> fleet@.contains_key(es[j].machine),
            ({
                let st = replay_from(init, es.take(i as int));
                &&& st.fleet == fleet@
                &&& st.instances == insts@
                &&& st.history == history@
                &&& st.counters == counters
                &&& replay_inv(st, keys, schedule_total(es.take(i as int)))
            }),
            counters.remove <= i,
            counters.remove_unobservable <= i,
            counters.place <= i,
            counters.hot_to_cold <= i,
            counters.neutral <= i,
            counters.cold_to_hot <= i,
            counters.well_formedness_skipped == 0,
        decreases n - i,
    {
        let ghost st = replay_from(init, es.take(i as int));
        let ghost next = replay_step(st, es[i as int]);
        proof {
            assert(es.take(i + 1).drop_last() =~= es.take(i as int));
            assert(es.take(i + 1).last() == es[i as int]);
            assert(replay_from(init, es.take(i + 1)) == next);
            lemma_schedule_total_prefix(es, i + 1);
            assert(schedule_total(es.take(i + 1)) == schedule_total(es.take(i as int)) + (
            if es[i as int].kind is Schedule {
                es[i as int].mass.0[0] as int
            } else {
                0
            }));
        }
        let ev = &events[i];
        let key = ev.instance.as_str();
        let ghost kv = ev.instance@;
        let prior_opt: Option<InstanceState> = match insts.get(key) {
            Some(p) => Some(*p),
            None => None,
        };
        match ev.kind {
            EventKind::Schedule => {
                match prior_opt {
                    Some(prior) => {
                        if prior.machine.0 != ev.machine.0 {
                            let src = prior.machine;
                            let dst = ev.machine;
                            let w = prior.mass;
                            let ghost j = keys.index_of(kv);
                            proof {
                                assert(keys.contains(kv));
                                assert(st.fleet.contains_key(src));
                                assert(st.fleet.contains_key(dst));
                                lemma_totals_update(keys, st.instances, j, InstanceState { machine: dst, mass: w }, src);
                                lemma_totals_nonneg(keys, st.instances, dst);
                                lemma_totals_nonneg(keys, st.instances.insert(kv, InstanceState { machine: dst, mass: w }), dst);
                                lemma_totals_update(keys, st.instances, j, InstanceState { machine: dst, mass: w }, dst);
                                lemma_totals_nonneg(keys, st.instances.insert(kv, InstanceState { machine: dst, mass: w }), src);
                                assert(inst_total(keys, st.instances, src) >= w.0[0]);
                            }
                            let src_load = match fleet.load(src) {
                                Some(l) => l.0[0],
                                None => 0,
                            };
                            let dst_load = match fleet.load(dst) {
                                Some(l) => l.0[0],
                                None => 0,
                            };
                            let ghost before = fleet@;
                            proof {
                                assert(load1(before, src) == inst_total(keys, st.instances, src));
                                assert(load1(before, dst) == inst_total(keys, st.instances, dst));
                                assert(src_load == load1(before, src));
                                assert(w.0[0] <= before[src].load.0[0]);
                                assert(crate::load::mass_le(w, before[src].load));
                                assert(grand_total(keys, st.instances.insert(kv, InstanceState { machine: dst, mass: w })) == grand_total(keys, st.instances));
                            }
                            let mut done = false;
                            if src_load > dst_load {
                                match HotToCold::witness(src, dst, w, &fleet) {
                                    Some(m) => {
                                        m.apply_to(&mut fleet);
                                        history.push(MoveRecord::HotToCold { source: src, destination: dst, mass: w });
                                        counters.hot_to_cold = counters.hot_to_cold + 1;
                                        done = true;
                                    },
                                    None => {},
                                }
                            } else if src_load == dst_load {
                                match Neutral::witness(src, dst, w, &fleet) {
                                    Some(m) => {
                                        m.apply_to(&mut fleet);
                                        history.push(MoveRecord::Neutral { source: src, destination: dst, mass: w });
                                        counters.neutral = counters.neutral + 1;
                                        done = true;
                                    },
                                    None => {},
                                }
                            }
                            if !done {
                                let m = ColdToHot::new(src, dst, w);
                                let _ = m.apply_to(&mut fleet);
                                history.push(MoveRecord::ColdToHot { source: src, destination: dst, mass: w });
                                counters.cold_to_hot = counters.cold_to_hot + 1;
                            }
                            insts.insert(ev.instance.clone(), InstanceState { machine: dst, mass: w });
                            proof {
                                let v = InstanceState { machine: dst, mass: w };
                                let nf = next.fleet;
                                let ni = next.instances;
                                assert(ni == st.instances.insert(kv, v));
                                assert(fleet@.dom() =~= nf.dom());
                                assert(fleet@[src].load.0 =~= nf[src].load.0);
                                assert(fleet@[dst].load.0 =~= nf[dst].load.0);
                                assert(fleet@ =~= nf);
                                assert(insts@ =~= ni);
                                assert forall|mm: MachineId| #[trigger] nf.contains_key(mm) implies load1(
                                    nf,
                                    mm,
                                ) == inst_total(keys, ni, mm) by {
                                    lemma_totals_update(keys, st.instances, j, v, mm);
                                }
                                assert forall|k: Seq<char>| ni.contains_key(k) <==> keys.contains(k) by {}
                            }
                        }
                    },
                    None => {
                        let dst = ev.machine;
                        let mass = ev.mass;
                        let ghost v = InstanceState { machine: dst, mass };
                        proof {
                            assert(!keys.contains(kv));
                            assert(fleet@.contains_key(dst));
                            lemma_totals_nonneg(keys, st.instances, dst);
                        }
                        let _ = Place::new(dst, mass).apply_to(&mut fleet);
                        history.push(MoveRecord::Place { machine: dst, mass });
                        counters.place = counters.place + 1;
                        insts.insert(ev.instance.clone(), InstanceState { machine: dst, mass });
                        proof {
                            let nf = next.fleet;
                            let ni = next.instances;
                            assert(ni == st.instances.insert(kv, v));
                            lemma_totals_push(keys, st.instances, kv, v, dst);
                            lemma_totals_nonneg(keys.push(kv), ni, dst);
                            assert(fleet@.dom() =~= nf.dom());
                            assert(fleet@[dst].load.0 =~= nf[dst].load.0);
                            assert(fleet@ =~= nf);
                            assert(insts@ =~= ni);
                            assert forall|mm: MachineId| #[trigger] nf.contains_key(mm) implies load1(
                                nf,
                                mm,
                            ) == inst_total(keys.push(kv), ni, mm) by {
                                lemma_totals_push(keys, st.instances, kv, v, mm);
                            }
                            assert(keys.push(kv).no_duplicates()) by {
                                assert forall|a: int, b: int| 0 <= a < keys.push(kv).len() && 0 <= b < keys.push(kv).len() && a != b implies keys.push(kv)[a] != keys.push(kv)[b] by {
                                    if a < keys.len() && b < keys.len() {
                                        assert(keys[a] != keys[b]);
                                    } else if a < keys.len() {
                                        assert(keys.contains(keys[a]));
                                    } else if b < keys.len() {
                                        assert(keys.contains(keys[b]));
                                    }
                                }
                            }
                            assert forall|k: Seq<char>| ni.contains_key(k) <==> keys.push(kv).contains(k) by {
                                if keys.contains(k) {
                                    let q = choose|q: int| 0 <= q < keys.len() && keys[q] == k;
                                    assert(keys.push(kv)[q] == k);
                                }
                                if keys.push(kv).contains(k) && k != kv {
                                    let q = choose|q: int| 0 <= q < keys.push(kv).len() && keys.push(kv)[q] == k;
                                    assert(keys[q] == k);
                                }
                                if k == kv {
                                    assert(keys.push(kv)[keys.len() as int] == k);
                                }
                            }
                            keys = keys.push(kv);
                        }
                    },
                }
            },
            EventKind::Remove => {
                match prior_opt {
                    Some(prior) => {
                        let m = prior.machine;
                        let w = prior.mass;
                        let ghost j = keys.index_of(kv);
                        proof {
                            assert(keys.contains(kv));
                            lemma_totals_remove(keys, st.instances, j, m);
                            lemma_totals_nonneg(keys.remove(j), st.instances.remove(kv), m);
                        }
                        insts.remove(key);
                        let load = match fleet.load(m) {
                            Some(l) => l.0[0],
                            None => 0,
                        };
                        proof {
                            assert(load1(fleet@, m) == inst_total(keys, st.instances, m));
                            assert(load as int == load1(fleet@, m));
                            assert(inst_total(keys, st.instances, m) >= w.0[0]);
                        }
                        if load < w.0[0] {
                            counters.well_formedness_skipped = counters.well_formedness_skipped + 1;
                        } else {
                            let _ = Remove::new(m, w).apply_to(&mut fleet);
                        }
                        history.push(MoveRecord::Remove { machine: m, mass: w });
                        counters.remove = counters.remove + 1;
                        proof {
                            let nf = next.fleet;
                            let ni = next.instances;
                            let nk = keys.remove(j);
                            assert(ni == st.instances.remove(kv));
                            assert(fleet@.dom() =~= nf.dom());
                            assert(fleet@[m].load.0 =~= nf[m].load.0);
                            assert(fleet@ =~= nf);
                            assert(insts@ =~= ni);
                            assert forall|mm: MachineId| #[trigger] nf.contains_key(mm) implies load1(
                                nf,
                                mm,
                            ) == inst_total(nk, ni, mm) by {
                                lemma_totals_remove(keys, st.instances, j, mm);
                            }
                            assert(nk.no_duplicates()) by {
                                assert forall|a: int, b: int| 0 <= a < nk.len() && 0 <= b < nk.len() && a != b implies nk[a] != nk[b] by {
                                    let a2 = if a < j { a } else { a + 1 };
                                    let b2 = if b < j { b } else { b + 1 };
                                    assert(nk[a] == keys[a2]);
                                    assert(nk[b] == keys[b2]);
                                }
                            }
                            assert forall|k: Seq<char>| ni.contains_key(k) <==> nk.contains(k) by {
                                if ni.contains_key(k) {
                                    assert(keys.contains(k));
                                    let q = choose|q: int| 0 <= q < keys.len() && keys[q] == k;
                                    assert(q != j);
                                    if q < j {
                                        assert(nk[q] == k);
                                    } else {
                                        assert(nk[q - 1] == k);
                                    }
                                }
                                if nk.contains(k) {
                                    let q = choose|q: int| 0 <= q < nk.len() && nk[q] == k;
                                    let q2 = if q < j { q } else { q + 1 };
                                    assert(keys[q2] == k);
                                    assert(q2 != j);
                                    assert(keys[j] == kv);
                                    assert(keys[q2] != keys[j]);
                                    assert(k != kv);
                                    assert(keys.contains(k));
                                    assert(st.instances.contains_key(k));
                                }
                            }
                            keys = nk;
                        }
                    },
                    None => {
                        counters.remove_unobservable = counters.remove_unobservable + 1;
                    },
                }
            },
        }
        i += 1;
    }
    assert(es.take(n as int) =~= es);
    ReplayOutcome { fleet, history, counters }
}

/// Every applied event leaves exactly one record: the history is as long as
/// the count of applied events (removes, placements and migrations).
pub proof fn law_history_counts_applied(s: ReplayState, es: Seq<ParsedEvent>)
    requires
        s.history.len() == s.counters.remove + s.counters.place + s.counters.hot_to_cold
            + s.counters.neutral + s.counters.cold_to_hot,
        s.counters.remove + es.len() <= u64::MAX,
        s.counters.place + es.len() <= u64::MAX,
        s.counters.hot_to_cold + es.len() <= u64::MAX,
        s.counters.neutral + es.len() <= u64::MAX,
        s.counters.cold_to_hot + es.len() <= u64::MAX,
        s.counters.remove_unobservable + es.len() <= u64::MAX,
        s.counters.well_formedness_skipped + es.len() <= u64::MAX,
    ensures
        ({
            let t = replay_from(s, es);
            &&& t.history.len() == t.counters.remove + t.counters.place + t.counters.hot_to_cold
                + t.counters.neutral + t.counters.cold_to_hot
            &&& t.counters.remove <= s.counters.remove + es.len()
            &&& t.counters.place <= s.counters.place + es.len()
            &&& t.counters.hot_to_cold <= s.counters.hot_to_cold + es.len()
            &&& t.counters.neutral <= s.counters.neutral + es.len()
            &&& t.counters.cold_to_hot <= s.counters.cold_to_hot + es.len()
            &&& t.counters.remove_unobservable <= s.counters.remove_unobservable + es.len()
            &&& t.counters.well_formedness_skipped <= s.counters.well_formedness_skipped + es.len()
        }),
    decreases es.len(),
{
    if es.len() > 0 {
        law_history_counts_applied(s, es.drop_last());
    }
}


/// Whether the scheduled mass of `events` fits in a word — the condition
/// under which [`classify_events`] accepts them.
pub fn schedule_total_fits(events: &[ParsedEvent]) -> (r: bool)
    ensures
        r == (schedule_total(events@) <= u64::MAX),
{
    let n = events.len();
    let mut sum: u64 = 0;
    let mut i: usize = 0;
    while i < n
        invariant
            n == events@.len(),
            i <= n,
            sum == schedule_total(events@.take(i as int)),
        decreases n - i,
    {
        proof {
            assert(events@.take(i + 1).drop_last() =~= events@.take(i as int));
        }
        if events[i].kind == EventKind::Schedule {
            let m = events[i].mass.0[0];
            if sum > u64::MAX - m {
                proof {
                    lemma_schedule_total_prefix(events@, i + 1);
                }
                return false;
            }
            sum = sum + m;
        }
        i += 1;
    }
    proof {
        assert(events@.take(n as int) =~= events@);
    }
    true
}


/// Number of events of kind `k` in `s`.
pub open spec fn count_kind(s: Seq<ParsedEvent>, k: EventKind) -> nat
    decreases s.len(),
{
    if s.len() == 0 {
        0
    } else {
        count_kind(s.drop_last(), k) + (if s.last().kind == k {
            1nat
        } else {
            0nat
        })
    }
}

proof fn lemma_count_insert(s: Seq<ParsedEvent>, p: int, x: ParsedEvent, k: EventKind)
    requires
        0 <= p <= s.len(),
    ensures
        count_kind(s.insert(p, x), k) == count_kind(s, k) + (if x.kind == k {
            1nat
        } else {
            0nat
        }),
    decreases s.len(),
{
    if p == s.len() {
        assert(s.insert(p, x).drop_last() =~= s);
    } else {
        assert(s.insert(p, x).drop_last() =~= s.drop_last().insert(p, x));
        lemma_count_insert(s.drop_last(), p, x, k);
    }
}

/// Sorting keeps the number of events of each kind.
proof fn lemma_sort_count(s: Seq<ParsedEvent>, k: EventKind)
    ensures
        count_kind(sort_by_time(s), k) == count_kind(s, k),
    decreases s.len(),
{
    if s.len() > 0 {
        lemma_sort_count(s.drop_last(), k);
        let r = sort_by_time(s.drop_last());
        lemma_first_after_bounds(r, s.last().time);
        lemma_count_insert(r, first_after(r, s.last().time), s.last(), k);
    }
}

/// The counting of [`replay_from`]: every `Remove` event adds one to
/// `remove` or `remove_unobservable`; every `Schedule` event adds at most
/// one to the placements and migrations.
proof fn lemma_replay_counts(s: ReplayState, es: Seq<ParsedEvent>)
    requires
        s.counters.remove + es.len() <= u64::MAX,
        s.counters.place + es.len() <= u64::MAX,
        s.counters.hot_to_cold + es.len() <= u64::MAX,
        s.counters.neutral + es.len() <= u64::MAX,
        s.counters.cold_to_hot + es.len() <= u64::MAX,
        s.counters.remove_unobservable + es.len() <= u64::MAX,
        s.counters.well_formedness_skipped + es.len() <= u64::MAX,
    ensures
        ({
            let t = replay_from(s, es).counters;
            let c = s.counters;
            &&& t.remove + t.remove_unobservable == c.remove + c.remove_unobservable + count_kind(
                es,
                EventKind::Remove,
            )
            &&& t.place + t.hot_to_cold + t.neutral + t.cold_to_hot <= c.place + c.hot_to_cold
                + c.neutral + c.cold_to_hot + count_kind(es, EventKind::Schedule)
            &&& t.remove <= c.remove + es.len()
            &&& t.place <= c.place + es.len()
            &&& t.hot_to_cold <= c.hot_to_cold + es.len()
            &&& t.neutral <= c.neutral + es.len()
            &&& t.cold_to_hot <= c.cold_to_hot + es.len()
            &&& t.remove_unobservable <= c.remove_unobservable + es.len()
            &&& t.well_formedness_skipped <= c.well_formedness_skipped + es.len()
        }),
    decreases es.len(),
{
    if es.len() > 0 {
        lemma_replay_counts(s, es.drop_last());
    }
}

/// The classifier accounts for every removal event exactly once (as a
/// removal, or as unobservable when the instance was never scheduled), and
/// for every schedule event at most once (a reschedule onto the same machine
/// changes nothing and is not counted).
pub proof fn law_replay_counts_events(es: Seq<ParsedEvent>, capacity: u64)
    requires
        es.len() <= u64::MAX,
    ensures
        ({
            let t = replay(sort_by_time(es), capacity).counters;
            &&& t.remove + t.remove_unobservable == count_kind(es, EventKind::Remove)
            &&& t.place + t.hot_to_cold + t.neutral + t.cold_to_hot <= count_kind(
                es,
                EventKind::Schedule,
            )
        }),
{
    let se = sort_by_time(es);
    lemma_sort_schedule_total(es);
    lemma_sort_count(es, EventKind::Remove);
    lemma_sort_count(es, EventKind::Schedule);
    lemma_replay_counts(
        ReplayState {
            fleet: initial_fleet(se, capacity),
            instances: Map::empty(),
            history: Seq::empty(),
            counters: Counters::spec_zero(),
        },
        se,
    );
}


/// Times never decrease along `s`.
pub open spec fn sorted_times(s: Seq<ParsedEvent>) -> bool {
    forall|i: int, j: int| 0 <= i <= j < s.len() ==> s[i].time <= s[j].time
}

/// `e` inserted into `r` after every event no later than it.
pub open spec fn insert_by_time(r: Seq<ParsedEvent>, e: ParsedEvent) -> Seq<ParsedEvent> {
    r.insert(first_after(r, e.time), e)
}

/// In a sorted sequence, `first_after` splits the events no later than `t`
/// from the later ones.
proof fn lemma_first_after_split(s: Seq<ParsedEvent>, t: u64)
    requires
        sorted_times(s),
    ensures
        0 <= first_after(s, t) <= s.len(),
        forall|i: int| 0 <= i < first_after(s, t) ==> s[i].time <= t,
        forall|i: int| first_after(s, t) <= i < s.len() ==> s[i].time > t,
    decreases s.len(),
{
    if s.len() > 0 && s[0].time <= t {
        let d = s.drop_first();
        assert(sorted_times(d)) by {
            assert forall|i: int, j: int| 0 <= i <= j < d.len() implies d[i].time <= d[j].time by {
                assert(d[i] == s[i + 1] && d[j] == s[j + 1]);
            }
        }
        lemma_first_after_split(d, t);
        assert forall|i: int| 0 <= i < first_after(s, t) implies s[i].time <= t by {
            if i > 0 {
                assert(s[i] == d[i - 1]);
            }
        }
        assert forall|i: int| first_after(s, t) <= i < s.len() implies s[i].time > t by {
            assert(s[i] == d[i - 1]);
        }
    } else if s.len() > 0 {
        assert forall|i: int| 0 <= i < s.len() implies s[i].time > t by {
            assert(s[0].time <= s[i].time);
        }
    }
}

/// The split point is unique.
proof fn lemma_first_after_is(s: Seq<ParsedEvent>, t: u64, p: int)
    requires
        sorted_times(s),
        0 <= p <= s.len(),
        forall|i: int| 0 <= i < p ==> s[i].time <= t,
        forall|i: int| p <= i < s.len() ==> s[i].time > t,
    ensures
        first_after(s, t) == p,
{
    lemma_first_after_split(s, t);
    let q = first_after(s, t);
    if q < p {
        assert(s[q].time > t);
    }
    if p < q {
        assert(s[p].time <= t);
    }
}

/// Inserting by time keeps a sequence sorted.
proof fn lemma_insert_sorted(r: Seq<ParsedEvent>, e: ParsedEvent)
    requires
        sorted_times(r),
    ensures
        sorted_times(insert_by_time(r, e)),
{
    lemma_first_after_split(r, e.time);
    let p = first_after(r, e.time);
    let x = insert_by_time(r, e);
    assert forall|i: int, j: int| 0 <= i <= j < x.len() implies x[i].time <= x[j].time by {
        let ri = if i < p { i } else { i - 1 };
        let rj = if j < p { j } else { j - 1 };
        if i != p && j != p {
            assert(x[i] == r[ri] && x[j] == r[rj]);
        } else if i == p && j != p {
            assert(x[j] == r[rj]);
        } else if i != p && j == p {
            assert(x[i] == r[ri]);
        }
    }
}

/// The stable sort by time is sorted.
proof fn lemma_sort_sorted(s: Seq<ParsedEvent>)
    ensures
        sorted_times(sort_by_time(s)),
    decreases s.len(),
{
    if s.len() > 0 {
        lemma_sort_sorted(s.drop_last());
        lemma_insert_sorted(sort_by_time(s.drop_last()), s.last());
    }
}

/// Inserting two events of different times commutes.
proof fn lemma_insert_commute(r: Seq<ParsedEvent>, a: ParsedEvent, b: ParsedEvent)
    requires
        sorted_times(r),
        a.time < b.time,
    ensures
        insert_by_time(insert_by_time(r, a), b) == insert_by_time(insert_by_time(r, b), a),
{
    lemma_first_after_split(r, a.time);
    lemma_first_after_split(r, b.time);
    let pa = first_after(r, a.time);
    let pb = first_after(r, b.time);
    assert(pa <= pb) by {
        if pb < pa {
            assert(r[pb].time > b.time);
            assert(r[pb].time <= a.time);
        }
    }
    let ra = r.insert(pa, a);
    let rb = r.insert(pb, b);
    lemma_insert_sorted(r, a);
    lemma_insert_sorted(r, b);
    assert forall|i: int| 0 <= i < pb + 1 implies ra[i].time <= b.time by {
        if i < pa {
            assert(ra[i] == r[i]);
        } else if i > pa {
            assert(ra[i] == r[i - 1]);
        }
    }
    assert forall|i: int| pb + 1 <= i < ra.len() implies ra[i].time > b.time by {
        assert(ra[i] == r[i - 1]);
    }
    lemma_first_after_is(ra, b.time, pb + 1);
    assert forall|i: int| 0 <= i < pa implies rb[i].time <= a.time by {
        assert(rb[i] == r[i]);
    }
    assert forall|i: int| pa <= i < rb.len() implies rb[i].time > a.time by {
        if i < pb {
            assert(rb[i] == r[i]);
        } else if i > pb {
            assert(rb[i] == r[i - 1]);
        }
    }
    lemma_first_after_is(rb, a.time, pa);
    assert(ra.insert(pb + 1, b) =~= rb.insert(pa, a));
}

/// Swapping two adjacent events of different times changes nothing: their
/// stable sort, and so the whole replay, is the same. Any reordering of
/// events with pairwise distinct times is a chain of such swaps.
pub proof fn law_swap_distinct_times(
    p: Seq<ParsedEvent>,
    a: ParsedEvent,
    b: ParsedEvent,
    q: Seq<ParsedEvent>,
    capacity: u64,
)
    requires
        a.time != b.time,
    ensures
        sort_by_time(p + seq![a, b] + q) == sort_by_time(p + seq![b, a] + q),
        replay(sort_by_time(p + seq![a, b] + q), capacity) == replay(
            sort_by_time(p + seq![b, a] + q),
            capacity,
        ),
    decreases q.len(),
{
    let x = p + seq![a, b] + q;
    let y = p + seq![b, a] + q;
    if q.len() == 0 {
        assert(x.drop_last() =~= p.push(a));
        assert(y.drop_last() =~= p.push(b));
        assert(p.push(a).drop_last() =~= p);
        assert(p.push(b).drop_last() =~= p);
        assert(x.last() == b && y.last() == a);
        assert(p.push(a).last() == a && p.push(b).last() == b);
        let r = sort_by_time(p);
        lemma_sort_sorted(p);
        assert(sort_by_time(p.push(a)) == insert_by_time(r, a));
        assert(sort_by_time(p.push(b)) == insert_by_time(r, b));
        assert(sort_by_time(x) == insert_by_time(sort_by_time(p.push(a)), b));
        assert(sort_by_time(y) == insert_by_time(sort_by_time(p.push(b)), a));
        assert(sort_by_time(x) == insert_by_time(insert_by_time(r, a), b));
        assert(sort_by_time(y) == insert_by_time(insert_by_time(r, b), a));
        if a.time < b.time {
            lemma_insert_commute(r, a, b);
        } else {
            lemma_insert_commute(r, b, a);
        }
    } else {
        let q2 = q.drop_last();
        law_swap_distinct_times(p, a, b, q2, capacity);
        assert(x.drop_last() =~= p + seq![a, b] + q2);
        assert(y.drop_last() =~= p + seq![b, a] + q2);
        assert(x.last() == y.last());
    }
}

} // verus!
