//! Load-vector primitives: machine ids, N-dimensional mass and capacity,
//! per-machine specs and the fleet.
//!
//! The fleet is held as a vector of `(MachineId, MachineSpec<N>)` entries in
//! strictly ascending id order, so iteration is stable and ascending. Its
//! mathematical view is the map from id to spec.

use vstd::prelude::*;
use vstd::std_specs::iter::IteratorSpec;
use crate::util::{frac, frac_le, frac_ok, lemma_frac_le_total, lemma_frac_le_trans, lemma_frac_ok, util_le_exec};

verus! {

/// Stable identifier for a machine in the fleet.
#[derive(Clone, Copy, Debug, PartialEq, Eq, PartialOrd, Ord, Hash, Structural)]
pub struct MachineId(pub u64);

/// Mass: the per-dimension load contribution of an instance, or the amount
/// moved between machines.
#[derive(Clone, Copy, Debug, PartialEq, Eq)]
pub struct Mass<const N: usize>(pub [u64; N]);

/// Per-dimension capacity of a machine, the denominator of utilization.
#[derive(Clone, Copy, Debug, PartialEq, Eq)]
pub struct Capacity<const N: usize>(pub [u64; N]);

/// Per-machine state: current load and capacity.
#[derive(Clone, Copy, Debug, PartialEq, Eq)]
pub struct MachineSpec<const N: usize> {
    pub load: Mass<N>,
    pub capacity: Capacity<N>,
}

/// Errors from operations that touch the fleet directly.
#[derive(Debug, PartialEq, Eq)]
pub enum FleetError {
    UnknownMachine(MachineId),
    InsufficientLoad { machine: MachineId, dimension: usize, requested: u64, available: u64 },
}

impl<const N: usize> Mass<N> {
    /// Zero in every dimension.
    pub fn zero() -> (m: Self)
        ensures
            forall|d: int| 0 <= d < N ==> m.0[d] == 0,
    {
        Mass([0u64; N])
    }

    /// Whether every dimension is zero (a move of it would be a no-op).
    pub open spec fn spec_is_zero(&self) -> bool {
        forall|d: int| 0 <= d < N ==> self.0[d] == 0
    }

    /// True if every dimension is zero.
    pub fn is_zero(&self) -> (r: bool)
        ensures
            r == self.spec_is_zero(),
    {
        let mut d: usize = 0;
        while d < N
            invariant
                d <= N,
                forall|e: int| 0 <= e < d ==> self.0[e] == 0,
            decreases N - d,
        {
            if self.0[d] != 0 {
                return false;
            }
            d += 1;
        }
        true
    }
}

impl<const N: usize> MachineSpec<N> {
    /// Exact utilization of dimension `d`.
    pub open spec fn util_of(&self, d: int) -> (int, int) {
        frac(self.load.0[d] as int, self.capacity.0[d] as int)
    }

    /// The index of the worst (most utilized) dimension among the first `k`,
    /// the last one among equals.
    pub open spec fn worst_dim_upto(&self, k: int) -> int
        decreases k,
    {
        if k <= 1 {
            0
        } else {
            let j = self.worst_dim_upto(k - 1);
            if frac_le(self.util_of(j), self.util_of(k - 1)) {
                k - 1
            } else {
                j
            }
        }
    }

    /// The worst dimension: the last index of maximal utilization (0 when `N == 0`).
    pub open spec fn worst_dim(&self) -> int {
        self.worst_dim_upto(N as int)
    }

    /// Worst-dimension utilization, exactly (0 when `N == 0`).
    pub open spec fn worst_frac(&self) -> (int, int) {
        if N == 0 {
            (0, 1)
        } else {
            self.util_of(self.worst_dim())
        }
    }

    pub proof fn lemma_worst_dim_upto(&self, k: int)
        requires
            1 <= k <= N,
        ensures
            0 <= self.worst_dim_upto(k) < k,
            forall|d: int| 0 <= d < k ==> frac_le(self.util_of(d), self.util_of(self.worst_dim_upto(k))),
            forall|d: int|
                self.worst_dim_upto(k) < d < k ==> !frac_le(
                    self.util_of(self.worst_dim_upto(k)),
                    self.util_of(d),
                ),
        decreases k,
    {
        assert forall|d: int| 0 <= d < N implies frac_ok(#[trigger] self.util_of(d)) by {
            lemma_frac_ok(self.load.0[d] as int, self.capacity.0[d] as int);
        }
        if k == 1 {
            lemma_frac_le_total(self.util_of(0), self.util_of(0));
        } else {
            self.lemma_worst_dim_upto(k - 1);
            let j = self.worst_dim_upto(k - 1);
            lemma_frac_le_total(self.util_of(j), self.util_of(k - 1));
            if frac_le(self.util_of(j), self.util_of(k - 1)) {
                assert forall|d: int| 0 <= d < k implies frac_le(
                    #[trigger] self.util_of(d),
                    self.util_of(k - 1),
                ) by {
                    if d < k - 1 {
                        lemma_frac_le_trans(self.util_of(d), self.util_of(j), self.util_of(k - 1));
                    } else {
                        lemma_frac_le_total(self.util_of(d), self.util_of(d));
                    }
                }
            }
        }
    }

    /// The worst dimension bounds every dimension's utilization.
    pub proof fn lemma_worst_frac(&self)
        ensures
            frac_ok(self.worst_frac()),
            forall|d: int| 0 <= d < N ==> frac_le(self.util_of(d), #[trigger] self.worst_frac()),
            N > 0 ==> 0 <= self.worst_dim() < N,
    {
        if N > 0 {
            self.lemma_worst_dim_upto(N as int);
            lemma_frac_ok(
                self.load.0[self.worst_dim()] as int,
                self.capacity.0[self.worst_dim()] as int,
            );
        }
    }

    /// Index of the worst dimension (the last index of maximal utilization;
    /// 0 when there are no dimensions).
    pub fn worst_dim_exec(&self) -> (r: usize)
        ensures
            r == self.worst_dim(),
            N > 0 ==> r < N,
    {
        if N == 0 {
            return 0;
        }
        let mut j: usize = 0;
        let mut d: usize = 1;
        while d < N
            invariant
                1 <= d <= N,
                j < d,
                j == self.worst_dim_upto(d as int),
            decreases N - d,
        {
            if util_le_exec(self.load.0[j], self.capacity.0[j], self.load.0[d], self.capacity.0[d]) {
                j = d;
            }
            d += 1;
        }
        j
    }
}

/// Worst-dimension utilization of `a` is at most that of `b`, exactly.
pub open spec fn worst_le<const N: usize>(a: MachineSpec<N>, b: MachineSpec<N>) -> bool {
    frac_le(a.worst_frac(), b.worst_frac())
}

/// Decides [`worst_le`].
pub fn worst_le_exec<const N: usize>(a: &MachineSpec<N>, b: &MachineSpec<N>) -> (r: bool)
    ensures
        r == worst_le(*a, *b),
{
    if N == 0 {
        return true;
    }
    let ja = a.worst_dim_exec();
    let jb = b.worst_dim_exec();
    util_le_exec(a.load.0[ja], a.capacity.0[ja], b.load.0[jb], b.capacity.0[jb])
}

/// Worst-dimension comparison is total.
pub proof fn lemma_worst_le_total<const N: usize>(a: MachineSpec<N>, b: MachineSpec<N>)
    ensures
        worst_le(a, a),
        worst_le(a, b) || worst_le(b, a),
{
    a.lemma_worst_frac();
    b.lemma_worst_frac();
    lemma_frac_le_total(a.worst_frac(), b.worst_frac());
}

/// Worst-dimension comparison is transitive.
pub proof fn lemma_worst_le_trans<const N: usize>(
    a: MachineSpec<N>,
    b: MachineSpec<N>,
    c: MachineSpec<N>,
)
    requires
        worst_le(a, b),
        worst_le(b, c),
    ensures
        worst_le(a, c),
{
    a.lemma_worst_frac();
    b.lemma_worst_frac();
    c.lemma_worst_frac();
    lemma_frac_le_trans(a.worst_frac(), b.worst_frac(), c.worst_frac());
}

/// Sum of a sequence of words, as an integer.
pub open spec fn sum_u64(s: Seq<u64>) -> int
    decreases s.len(),
{
    if s.len() == 0 {
        0
    } else {
        sum_u64(s.drop_last()) + s.last()
    }
}

/// Prefix sums of words are non-decreasing.
pub proof fn lemma_sum_u64_prefix(s: Seq<u64>, i: int, j: int)
    requires
        0 <= i <= j <= s.len(),
    ensures
        0 <= sum_u64(s.take(i)) <= sum_u64(s.take(j)),
    decreases j - i,
{
    if i < j {
        lemma_sum_u64_prefix(s, i, j - 1);
        assert(s.take(j).drop_last() =~= s.take(j - 1));
    } else {
        lemma_sum_u64_nonneg(s.take(i));
    }
}

pub proof fn lemma_sum_u64_nonneg(s: Seq<u64>)
    ensures
        0 <= sum_u64(s),
    decreases s.len(),
{
    if s.len() > 0 {
        lemma_sum_u64_nonneg(s.drop_last());
    }
}

/// Total mass across dimensions.
pub open spec fn mass_total<const N: usize>(m: Mass<N>) -> int {
    sum_u64(m.0@)
}

impl<const N: usize> Mass<N> {
    /// Total mass across dimensions; the total must fit in a word.
    pub fn total(&self) -> (r: u64)
        requires
            mass_total(*self) <= u64::MAX,
        ensures
            r == mass_total(*self),
    {
        let mut acc: u64 = 0;
        let mut d: usize = 0;
        while d < N
            invariant
                d <= N,
                self.0@.len() == N,
                sum_u64(self.0@) <= u64::MAX,
                acc == sum_u64(self.0@.take(d as int)),
            decreases N - d,
        {
            proof {
                lemma_sum_u64_prefix(self.0@, d + 1, N as int);
                assert(self.0@.take(N as int) =~= self.0@);
                assert(self.0@.take(d + 1).drop_last() =~= self.0@.take(d as int));
            }
            acc = acc + self.0[d];
            d += 1;
        }
        assert(self.0@.take(N as int) =~= self.0@);
        acc
    }
}

/// Entries in strictly ascending id order.
pub open spec fn sorted_ids<const N: usize>(s: Seq<(MachineId, MachineSpec<N>)>) -> bool {
    forall|i: int, j: int| 0 <= i < j < s.len() ==> s[i].0.0 < s[j].0.0
}

/// Whether some entry carries `id`.
pub open spec fn has_id<const N: usize>(s: Seq<(MachineId, MachineSpec<N>)>, id: MachineId) -> bool {
    exists|i: int| 0 <= i < s.len() && s[i].0 == id
}

/// The map from id to spec that a list of entries denotes.
pub open spec fn to_map<const N: usize>(s: Seq<(MachineId, MachineSpec<N>)>) -> Map<
    MachineId,
    MachineSpec<N>,
> {
    Map::new(
        |k: MachineId| has_id(s, k),
        |k: MachineId| s[choose|i: int| 0 <= i < s.len() && s[i].0 == k].1,
    )
}

/// In a sorted list, the entry at `i` is what the map holds for its id.
pub proof fn lemma_to_map_index<const N: usize>(s: Seq<(MachineId, MachineSpec<N>)>, i: int)
    requires
        sorted_ids(s),
        0 <= i < s.len(),
    ensures
        to_map(s).contains_key(s[i].0),
        to_map(s)[s[i].0] == s[i].1,
{
    assert(has_id(s, s[i].0));
    let j = choose|j: int| 0 <= j < s.len() && s[j].0 == s[i].0;
    if j < i {
        assert(s[j].0.0 < s[i].0.0);
    } else if j > i {
        assert(s[i].0.0 < s[j].0.0);
    }
}

/// Replacing the spec of entry `i` (same id) keeps the order and updates the map.
pub proof fn lemma_update_spec<const N: usize>(
    s: Seq<(MachineId, MachineSpec<N>)>,
    i: int,
    spec: MachineSpec<N>,
)
    requires
        sorted_ids(s),
        0 <= i < s.len(),
    ensures
        sorted_ids(s.update(i, (s[i].0, spec))),
        to_map(s.update(i, (s[i].0, spec))) == to_map(s).insert(s[i].0, spec),
{
    let id = s[i].0;
    let t = s.update(i, (id, spec));
    assert(sorted_ids(t)) by {
        assert forall|a: int, b: int| 0 <= a < b < t.len() implies t[a].0.0 < t[b].0.0 by {
            assert(t[a].0 == s[a].0);
            assert(t[b].0 == s[b].0);
        }
    }
    assert(to_map(t) =~= to_map(s).insert(id, spec)) by {
        assert forall|k: MachineId| #[trigger] to_map(t).contains_key(k) <==> to_map(s).insert(
            id,
            spec,
        ).contains_key(k) by {
            if has_id(t, k) {
                let j = choose|j: int| 0 <= j < t.len() && t[j].0 == k;
                assert(s[j].0 == k);
            }
            if has_id(s, k) {
                let j = choose|j: int| 0 <= j < s.len() && s[j].0 == k;
                assert(t[j].0 == k);
            }
            if k == id {
                assert(t[i].0 == k);
            }
        }
        assert forall|k: MachineId| #[trigger] to_map(t).contains_key(k) implies to_map(t)[k]
            == to_map(s).insert(id, spec)[k] by {
            let j = choose|j: int| 0 <= j < t.len() && t[j].0 == k;
            lemma_to_map_index(t, j);
            if j != i {
                lemma_to_map_index(s, j);
            }
        }
    }
}

/// `a + b`, saturating at `u64::MAX`.
pub open spec fn sat_sum(a: u64, b: u64) -> int {
    if a + b > u64::MAX {
        u64::MAX as int
    } else {
        a + b
    }
}

/// `r` is `a + m` in every dimension, saturating at `u64::MAX`.
pub open spec fn saturating_added<const N: usize>(a: Mass<N>, m: Mass<N>, r: Mass<N>) -> bool {
    forall|d: int|
        0 <= d < N ==> #[trigger] r.0[d] == (if a.0[d] + m.0[d] > u64::MAX {
            u64::MAX as int
        } else {
            a.0[d] + m.0[d]
        })
}

/// `r` is `a - m` in every dimension.
pub open spec fn subtracted<const N: usize>(a: Mass<N>, m: Mass<N>, r: Mass<N>) -> bool {
    forall|d: int| 0 <= d < N ==> #[trigger] r.0[d] == a.0[d] - m.0[d]
}

/// `m ≤ a` in every dimension.
pub open spec fn mass_le<const N: usize>(m: Mass<N>, a: Mass<N>) -> bool {
    forall|d: int| 0 <= d < N ==> #[trigger] m.0[d] <= a.0[d]
}

/// State of the fleet at a single instant.
#[derive(Clone, Debug)]
pub struct Fleet<const N: usize> {
    machines: Vec<(MachineId, MachineSpec<N>)>,
}

impl<const N: usize> View for Fleet<N> {
    type V = Map<MachineId, MachineSpec<N>>;

    open spec fn view(&self) -> Map<MachineId, MachineSpec<N>> {
        to_map(self.entries())
    }
}

impl<const N: usize> Fleet<N> {
    /// The entries, ascending by id (the iteration order).
    pub closed spec fn entries(&self) -> Seq<(MachineId, MachineSpec<N>)> {
        self.machines@
    }

    /// Well-formedness: entries strictly ascending by id.
    pub open spec fn wf(&self) -> bool {
        sorted_ids(self.entries())
    }

    /// Construct an empty fleet.
    pub fn new() -> (f: Self)
        ensures
            f.wf(),
            f.entries().len() == 0,
            f@ == Map::<MachineId, MachineSpec<N>>::empty(),
    {
        let f = Fleet { machines: Vec::new() };
        assert(f@ =~= Map::<MachineId, MachineSpec<N>>::empty());
        f
    }

    /// Position of the first entry whose id is not below `id`.
    fn lower_bound(&self, id: MachineId) -> (i: usize)
        requires
            self.wf(),
        ensures
            i <= self.entries().len(),
            forall|j: int| 0 <= j < i ==> self.entries()[j].0.0 < id.0,
            forall|j: int| i <= j < self.entries().len() ==> self.entries()[j].0.0 >= id.0,
    {
        let mut i: usize = 0;
        while i < self.machines.len()
            invariant
                i <= self.machines@.len(),
                self.wf(),
                forall|j: int| 0 <= j < i ==> self.machines@[j].0.0 < id.0,
            decreases self.machines@.len() - i,
        {
            if self.machines[i].0.0 >= id.0 {
                return i;
            }
            i += 1;
        }
        i
    }

    /// Position of the entry with `id`, if any.
    fn position(&self, id: MachineId) -> (r: Option<usize>)
        requires
            self.wf(),
        ensures
            r is Some <==> self@.contains_key(id),
            r matches Some(i) ==> i < self.entries().len() && self.entries()[i as int].0 == id
                && self@[id] == self.entries()[i as int].1,
    {
        let i = self.lower_bound(id);
        if i < self.machines.len() && self.machines[i].0.0 == id.0 {
            proof {
                lemma_to_map_index(self.entries(), i as int);
            }
            Some(i)
        } else {
            assert(!has_id(self.entries(), id)) by {
                if has_id(self.entries(), id) {
                    let j = choose|j: int|
                        0 <= j < self.entries().len() && self.entries()[j].0 == id;
                    if j > i {
                        assert(self.entries()[i as int].0.0 < self.entries()[j].0.0);
                    }
                }
            }
            None
        }
    }

    /// Add a machine with the given capacity and starting load, replacing
    /// any machine already registered under `id`.
    pub fn add_machine(&mut self, id: MachineId, capacity: Capacity<N>, initial_load: Mass<N>)
        requires
            old(self).wf(),
        ensures
            final(self).wf(),
            final(self)@ == old(self)@.insert(id, MachineSpec { load: initial_load, capacity }),
    {
        let spec = MachineSpec { load: initial_load, capacity };
        let i = self.lower_bound(id);
        let ghost old_s = self.entries();
        if i < self.machines.len() && self.machines[i].0.0 == id.0 {
            self.machines.set(i, (id, spec));
            let ghost s = self.entries();
            assert(s == old_s.update(i as int, (id, spec)));
            assert(self@ =~= to_map(old_s).insert(id, spec)) by {
                assert forall|k: MachineId| #[trigger] self@.contains_key(k) <==> to_map(
                    old_s,
                ).insert(id, spec).contains_key(k) by {
                    if has_id(s, k) {
                        let j = choose|j: int| 0 <= j < s.len() && s[j].0 == k;
                        if j != i {
                            assert(old_s[j].0 == k);
                        }
                    }
                    if has_id(old_s, k) {
                        let j = choose|j: int| 0 <= j < old_s.len() && old_s[j].0 == k;
                        if j != i {
                            assert(s[j].0 == k);
                        } else {
                            assert(s[i as int].0 == k);
                        }
                    }
                    if k == id {
                        assert(s[i as int].0 == k);
                    }
                }
                assert forall|k: MachineId| #[trigger] self@.contains_key(k) implies self@[k]
                    == to_map(old_s).insert(id, spec)[k] by {
                    let j = choose|j: int| 0 <= j < s.len() && s[j].0 == k;
                    lemma_to_map_index(s, j);
                    if j != i {
                        lemma_to_map_index(old_s, j);
                    }
                }
            }
        } else {
            self.machines.insert(i, (id, spec));
            let ghost s = self.entries();
            assert(s == old_s.insert(i as int, (id, spec)));
            assert(sorted_ids(s)) by {
                assert forall|a: int, b: int| 0 <= a < b < s.len() implies s[a].0.0
                    < s[b].0.0 by {
                    if a < i && b > i {
                        assert(s[b] == old_s[b - 1]);
                    }
                    if a > i {
                        assert(s[a] == old_s[a - 1]);
                        assert(s[b] == old_s[b - 1]);
                    }
                    if a == i {
                        assert(s[b] == old_s[b - 1]);
                        assert(old_s[b - 1].0.0 != id.0 || b - 1 != i);
                    }
                }
            }
            assert(self@ =~= to_map(old_s).insert(id, spec)) by {
                assert forall|k: MachineId| #[trigger] self@.contains_key(k) <==> to_map(
                    old_s,
                ).insert(id, spec).contains_key(k) by {
                    if has_id(s, k) {
                        let j = choose|j: int| 0 <= j < s.len() && s[j].0 == k;
                        if j < i {
                            assert(old_s[j].0 == k);
                        } else if j > i {
                            assert(old_s[j - 1].0 == k);
                        }
                    }
                    if has_id(old_s, k) {
                        let j = choose|j: int| 0 <= j < old_s.len() && old_s[j].0 == k;
                        if j < i {
                            assert(s[j].0 == k);
                        } else {
                            assert(s[j + 1].0 == k);
                        }
                    }
                    if k == id {
                        assert(s[i as int].0 == k);
                    }
                }
                assert forall|k: MachineId| #[trigger] self@.contains_key(k) implies self@[k]
                    == to_map(old_s).insert(id, spec)[k] by {
                    let j = choose|j: int| 0 <= j < s.len() && s[j].0 == k;
                    lemma_to_map_index(s, j);
                    if j < i {
                        lemma_to_map_index(old_s, j);
                    } else if j > i {
                        lemma_to_map_index(old_s, j - 1);
                    }
                }
            }
        }
    }

    /// Capacity vector for `id`, or `None` if the machine is unknown.
    pub fn capacity_of(&self, id: MachineId) -> (r: Option<Capacity<N>>)
        requires
            self.wf(),
        ensures
            r == (if self@.contains_key(id) {
                Some(self@[id].capacity)
            } else {
                None::<Capacity<N>>
            }),
    {
        match self.position(id) {
            Some(i) => Some(self.machines[i].1.capacity),
            None => None,
        }
    }

    /// Current load on `id`, or `None` if the machine is unknown.
    pub fn load(&self, id: MachineId) -> (r: Option<Mass<N>>)
        requires
            self.wf(),
        ensures
            r == (if self@.contains_key(id) {
                Some(self@[id].load)
            } else {
                None::<Mass<N>>
            }),
    {
        match self.position(id) {
            Some(i) => Some(self.machines[i].1.load),
            None => None,
        }
    }

    /// Borrow the per-machine spec, or `None` if unknown.
    pub fn spec(&self, id: MachineId) -> (r: Option<&MachineSpec<N>>)
        requires
            self.wf(),
        ensures
            r == (if self@.contains_key(id) {
                Some(&self@[id])
            } else {
                None::<&MachineSpec<N>>
            }),
    {
        match self.position(id) {
            Some(i) => Some(&self.machines[i].1),
            None => None,
        }
    }

    /// The entries, ascending by id.
    pub fn as_slice(&self) -> (r: &[(MachineId, MachineSpec<N>)])
        ensures
            r@ == self.entries(),
    {
        self.machines.as_slice()
    }

    /// Iterate over `(MachineId, MachineSpec<N>)` entries in ascending id order.
    pub fn iter(&self) -> (r: std::slice::Iter<'_, (MachineId, MachineSpec<N>)>)
        ensures
            r.remaining() == self.entries().as_ref(),
    {
        let s = self.machines.as_slice();
        s.iter()
    }

    /// Number of machines.
    pub fn len(&self) -> (r: usize)
        requires
            self.wf(),
        ensures
            r == self.entries().len(),
            r == self@.len(),
    {
        proof {
            self.lemma_len();
        }
        self.machines.len()
    }

    /// Whether the fleet has no machines.
    pub fn is_empty(&self) -> (r: bool)
        requires
            self.wf(),
        ensures
            r == (self.entries().len() == 0),
            r == (self@.len() == 0),
    {
        proof {
            self.lemma_len();
        }
        self.machines.len() == 0
    }

    /// Add `mass` to a machine's load, dimension by dimension, saturating at
    /// `u64::MAX`. Unknown machine: `Err(UnknownMachine(id))`, fleet unchanged.
    pub fn add_load(&mut self, id: MachineId, mass: Mass<N>) -> (r: Result<(), FleetError>)
        requires
            old(self).wf(),
        ensures
            final(self).wf(),
            final(self).entries().len() == old(self).entries().len(),
            forall|j: int| 0 <= j < old(self).entries().len() ==> (#[trigger] final(self).entries()[j]).0 == old(self).entries()[j].0,
            !old(self)@.contains_key(id) ==> r == Err::<(), FleetError>(FleetError::UnknownMachine(id)) && final(self)@ == old(self)@,
            old(self)@.contains_key(id) ==> {
                &&& r is Ok
                &&& final(self)@ == old(self)@.insert(id, MachineSpec { load: final(self)@[id].load, capacity: old(self)@[id].capacity })
                &&& saturating_added(old(self)@[id].load, mass, final(self)@[id].load)
            },
    {
        match self.position(id) {
            None => Err(FleetError::UnknownMachine(id)),
            Some(i) => {
                let ghost old_s = self.entries();
                let mut spec = self.machines[i].1;
                let ghost old_load = spec.load;
                let mut d: usize = 0;
                while d < N
                    invariant
                        d <= N,
                        i < old_s.len(),
                        spec.capacity == old_s[i as int].1.capacity,
                        forall|e: int| d <= e < N ==> spec.load.0[e] == old_load.0[e],
                        forall|e: int| 0 <= e < d ==> #[trigger] spec.load.0[e] == (if old_load.0[e] + mass.0[e] > u64::MAX {
                            u64::MAX as int
                        } else {
                            old_load.0[e] + mass.0[e]
                        }),
                    decreases N - d,
                {
                    spec.load.0[d] = spec.load.0[d].saturating_add(mass.0[d]);
                    d += 1;
                }
                self.machines.set(i, (id, spec));
                proof {
                    lemma_update_spec(old_s, i as int, spec);
                    assert(self.entries() == old_s.update(i as int, (old_s[i as int].0, spec)));
                    lemma_to_map_index(self.entries(), i as int);
                }
                Ok(())
            },
        }
    }

    /// Subtract `mass` from a machine's load. Unknown machine:
    /// `Err(UnknownMachine(id))`; a dimension that would underflow:
    /// `Err(InsufficientLoad)` naming the first such dimension. The fleet is
    /// unchanged on error.
    pub fn remove_load(&mut self, id: MachineId, mass: Mass<N>) -> (r: Result<(), FleetError>)
        requires
            old(self).wf(),
        ensures
            final(self).wf(),
            final(self).entries().len() == old(self).entries().len(),
            forall|j: int| 0 <= j < old(self).entries().len() ==> (#[trigger] final(self).entries()[j]).0 == old(self).entries()[j].0,
            r is Ok <==> old(self)@.contains_key(id) && mass_le(mass, old(self)@[id].load),
            r is Err ==> final(self)@ == old(self)@,
            !old(self)@.contains_key(id) ==> r == Err::<(), FleetError>(FleetError::UnknownMachine(id)),
            old(self)@.contains_key(id) && !mass_le(mass, old(self)@[id].load) ==> r matches Err(
                FleetError::InsufficientLoad { .. },
            ),
            r matches Err(FleetError::InsufficientLoad { machine, dimension, requested, available }) ==> {
                &&& old(self)@.contains_key(id)
                &&& machine == id
                &&& dimension < N
                &&& requested == mass.0[dimension as int]
                &&& available == old(self)@[id].load.0[dimension as int]
                &&& available < requested
                &&& forall|e: int| 0 <= e < dimension ==> mass.0[e] <= #[trigger] old(self)@[id].load.0[e]
            },
            r is Ok ==> {
                &&& final(self)@ == old(self)@.insert(id, MachineSpec { load: final(self)@[id].load, capacity: old(self)@[id].capacity })
                &&& subtracted(old(self)@[id].load, mass, final(self)@[id].load)
            },
    {
        match self.position(id) {
            None => Err(FleetError::UnknownMachine(id)),
            Some(i) => {
                let ghost old_s = self.entries();
                let mut spec = self.machines[i].1;
                let ghost old_load = spec.load;
                let mut d: usize = 0;
                while d < N
                    invariant
                        d <= N,
                        self.entries() == old_s,
                        self.wf(),
                        i < old_s.len(),
                        old_s[i as int].0 == id,
                        old(self)@ == self@,
                        self@.contains_key(id),
                        self@[id] == old_s[i as int].1,
                        spec == old_s[i as int].1,
                        forall|e: int| 0 <= e < d ==> mass.0[e] <= #[trigger] spec.load.0[e],
                    decreases N - d,
                {
                    if spec.load.0[d] < mass.0[d] {
                        return Err(FleetError::InsufficientLoad {
                            machine: id,
                            dimension: d,
                            requested: mass.0[d],
                            available: spec.load.0[d],
                        });
                    }
                    d += 1;
                }
                let mut d: usize = 0;
                while d < N
                    invariant
                        d <= N,
                        i < old_s.len(),
                        spec.capacity == old_s[i as int].1.capacity,
                        forall|e: int| 0 <= e < N ==> mass.0[e] <= #[trigger] old_load.0[e],
                        forall|e: int| d <= e < N ==> spec.load.0[e] == old_load.0[e],
                        forall|e: int| 0 <= e < d ==> #[trigger] spec.load.0[e] == old_load.0[e] - mass.0[e],
                    decreases N - d,
                {
                    assert(mass.0[d as int] <= old_load.0[d as int]);
                    assert(spec.load.0[d as int] == old_load.0[d as int]);
                    spec.load.0[d] = spec.load.0[d] - mass.0[d];
                    d += 1;
                }
                self.machines.set(i, (id, spec));
                proof {
                    lemma_update_spec(old_s, i as int, spec);
                    assert(self.entries() == old_s.update(i as int, (old_s[i as int].0, spec)));
                    lemma_to_map_index(self.entries(), i as int);
                }
                Ok(())
            },
        }
    }

    /// The map has exactly as many keys as there are entries.
    pub proof fn lemma_len(&self)
        requires
            self.wf(),
        ensures
            self@.dom().finite(),
            self@.len() == self.entries().len(),
    {
        let s = self.entries();
        let ids = Seq::new(s.len(), |i: int| s[i].0);
        assert(ids.no_duplicates()) by {
            assert forall|a: int, b: int| 0 <= a < ids.len() && 0 <= b < ids.len() && a != b
                implies ids[a] != ids[b] by {
                if a < b {
                    assert(s[a].0.0 < s[b].0.0);
                } else {
                    assert(s[b].0.0 < s[a].0.0);
                }
            }
        }
        assert(self@.dom() =~= ids.to_set()) by {
            assert forall|k: MachineId| self@.dom().contains(k) <==> ids.to_set().contains(k) by {
                if self@.dom().contains(k) {
                    let j = choose|j: int| 0 <= j < s.len() && s[j].0 == k;
                    assert(ids[j] == k);
                }
                if ids.to_set().contains(k) {
                    let j = choose|j: int| 0 <= j < ids.len() && ids[j] == k;
                    assert(s[j].0 == k);
                }
            }
        }
        ids.unique_seq_to_set();
    }
}

impl<const N: usize> Default for Fleet<N> {
    fn default() -> (f: Self)
        ensures
            f.wf(),
            f@ == Map::<MachineId, MachineSpec<N>>::empty(),
    {
        Fleet::new()
    }
}

} // verus!
