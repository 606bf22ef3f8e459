//! Move-history recording for replay and debugging.
//!
//! `MoveHistory` is an append-only list of the moves applied to a fleet,
//! kept apart from the safety typestate.

use vstd::prelude::*;
use vstd::std_specs::iter::IteratorSpec;
use crate::load::{MachineId, Mass};

verus! {

/// One recorded move: its kind and its operational data.
#[derive(Clone, Copy, Debug, PartialEq, Eq)]
pub enum MoveRecord<const N: usize> {
    Remove { machine: MachineId, mass: Mass<N> },
    HotToCold { source: MachineId, destination: MachineId, mass: Mass<N> },
    Neutral { source: MachineId, destination: MachineId, mass: Mass<N> },
    ColdToHot { source: MachineId, destination: MachineId, mass: Mass<N> },
    Place { machine: MachineId, mass: Mass<N> },
}

impl<const N: usize> MoveRecord<N> {
    /// Remove, HotToCold and Neutral are the typed-pure kinds.
    pub open spec fn spec_is_typed_pure(&self) -> bool {
        self is Remove || self is HotToCold || self is Neutral
    }

    /// Whether this kind has a total `apply`.
    pub fn is_typed_pure(&self) -> (r: bool)
        ensures
            r == self.spec_is_typed_pure(),
    {
        match self {
            MoveRecord::Remove { .. } | MoveRecord::HotToCold { .. } | MoveRecord::Neutral {
                ..
            } => true,
            MoveRecord::ColdToHot { .. } | MoveRecord::Place { .. } => false,
        }
    }
}

/// Number of typed-pure records in `s`.
pub open spec fn count_typed_pure<const N: usize>(s: Seq<MoveRecord<N>>) -> nat
    decreases s.len(),
{
    if s.len() == 0 {
        0
    } else {
        count_typed_pure(s.drop_last()) + (if s.last().spec_is_typed_pure() {
            1nat
        } else {
            0nat
        })
    }
}

/// The typed-pure count never exceeds the number of records.
pub proof fn lemma_count_typed_pure_le<const N: usize>(s: Seq<MoveRecord<N>>)
    ensures
        count_typed_pure(s) <= s.len(),
    decreases s.len(),
{
    if s.len() > 0 {
        lemma_count_typed_pure_le(s.drop_last());
    }
}

/// Append-only list of moves applied to a fleet.
#[derive(Clone, Debug)]
pub struct MoveHistory<const N: usize> {
    records: Vec<MoveRecord<N>>,
}

impl<const N: usize> View for MoveHistory<N> {
    type V = Seq<MoveRecord<N>>;

    closed spec fn view(&self) -> Seq<MoveRecord<N>> {
        self.records@
    }
}

impl<const N: usize> MoveHistory<N> {
    /// An empty history.
    pub fn new() -> (h: Self)
        ensures
            h@ == Seq::<MoveRecord<N>>::empty(),
    {
        MoveHistory { records: Vec::new() }
    }

    /// Append a record.
    pub fn push(&mut self, r: MoveRecord<N>)
        ensures
            final(self)@ == old(self)@.push(r),
    {
        self.records.push(r);
    }

    /// The records, oldest first.
    pub fn as_slice(&self) -> (r: &[MoveRecord<N>])
        ensures
            r@ == self@,
    {
        self.records.as_slice()
    }

    /// Iterate over the records, oldest first.
    pub fn iter(&self) -> (r: std::slice::Iter<'_, MoveRecord<N>>)
        ensures
            r.remaining() == self@.as_ref(),
    {
        let s = self.records.as_slice();
        s.iter()
    }

    /// Number of records.
    pub fn len(&self) -> (r: usize)
        ensures
            r == self@.len(),
    {
        self.records.len()
    }

    /// Whether no move has been recorded.
    pub fn is_empty(&self) -> (r: bool)
        ensures
            r == (self@.len() == 0),
    {
        self.records.len() == 0
    }

    /// Count of typed-pure records.
    pub fn typed_pure_count(&self) -> (r: usize)
        ensures
            r == count_typed_pure(self@),
    {
        let mut count: usize = 0;
        let mut i: usize = 0;
        while i < self.records.len()
            invariant
                i <= self.records@.len(),
                count == count_typed_pure(self.records@.take(i as int)),
                count <= i,
            decreases self.records@.len() - i,
        {
            assert(self.records@.take(i + 1).drop_last() =~= self.records@.take(i as int));
            if self.records[i].is_typed_pure() {
                count += 1;
            }
            i += 1;
        }
        assert(self.records@.take(i as int) =~= self.records@);
        count
    }
}

impl<const N: usize> Default for MoveHistory<N> {
    fn default() -> (h: Self)
        ensures
            h@ == Seq::<MoveRecord<N>>::empty(),
    {
        MoveHistory::new()
    }
}


/// The typed-pure kinds are exactly `Remove`, `HotToCold` and `Neutral`;
/// `ColdToHot` and `Place` are catch-all.
pub proof fn law_typed_pure_kinds<const N: usize>(r: MoveRecord<N>)
    ensures
        r is Remove ==> r.spec_is_typed_pure(),
        r is HotToCold ==> r.spec_is_typed_pure(),
        r is Neutral ==> r.spec_is_typed_pure(),
        r is ColdToHot ==> !r.spec_is_typed_pure(),
        r is Place ==> !r.spec_is_typed_pure(),
{
}

/// The typed-pure count of an empty history is 0, and appending a record
/// adds one exactly when it is a `Remove`, `HotToCold` or `Neutral`.
pub proof fn law_count_typed_pure_push<const N: usize>(s: Seq<MoveRecord<N>>, r: MoveRecord<N>)
    ensures
        count_typed_pure(Seq::<MoveRecord<N>>::empty()) == 0,
        count_typed_pure(s.push(r)) == count_typed_pure(s) + (if r is Remove || r is HotToCold
            || r is Neutral {
            1int
        } else {
            0int
        }),
{
    assert(s.push(r).drop_last() =~= s);
}

/// The typed-pure count of two histories joined is the sum of their counts.
pub proof fn law_count_typed_pure_append<const N: usize>(a: Seq<MoveRecord<N>>, b: Seq<MoveRecord<N>>)
    ensures
        count_typed_pure(a + b) == count_typed_pure(a) + count_typed_pure(b),
    decreases b.len(),
{
    if b.len() == 0 {
        assert(a + b =~= a);
    } else {
        law_count_typed_pure_append(a, b.drop_last());
        assert((a + b).drop_last() =~= a + b.drop_last());
        assert((a + b).last() == b.last());
    }
}

/// The count is the number of typed-pure records: at most the length, and
/// equal to it exactly when every record is typed-pure.
pub proof fn law_count_typed_pure_all<const N: usize>(s: Seq<MoveRecord<N>>)
    ensures
        count_typed_pure(s) <= s.len(),
        count_typed_pure(s) == s.len() <==> forall|i: int|
            0 <= i < s.len() ==> (#[trigger] s[i] is Remove || s[i] is HotToCold || s[i] is Neutral),
        count_typed_pure(s) == 0 <==> forall|i: int|
            0 <= i < s.len() ==> (#[trigger] s[i] is ColdToHot || s[i] is Place),
    decreases s.len(),
{
    if s.len() > 0 {
        let l = s.drop_last();
        law_count_typed_pure_all(l);
        assert forall|i: int| 0 <= i < l.len() implies l[i] == s[i] by {}
        let x = s.last();
        assert(x == s[s.len() - 1]);
    }
}

} // verus!
