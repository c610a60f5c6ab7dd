//! Event edges, event arcs and the bookkeeping of event searches.
//!
//! Epochs are carried as signed nanoseconds on the TAI time scale: this is the
//! quantity by which epochs are ordered, so comparing two of them as integers
//! orders them as epochs are ordered.
use vstd::prelude::*;

use crate::report::{insert_by_epoch, lemma_insert_by_epoch_at, sort_by_epoch};

verus! {

/// The largest magnitude of an epoch, in TAI nanoseconds: 2^15 centuries of
/// 3_155_760_000 seconds, the range of a time-scale duration.
pub open spec fn max_epoch_ns() -> int {
    32768int * 3_155_760_000_000_000_000int
}

/// Whether `n` is an epoch, in TAI nanoseconds, that a duration can hold.
pub open spec fn is_epoch_ns(n: i128) -> bool {
    -max_epoch_ns() <= n <= max_epoch_ns()
}

/// The nature of an event found along a trajectory.
#[derive(Copy, Clone, PartialEq, Eq, Structural, Debug, PartialOrd, Ord)]
pub enum EventEdge {
    /// The evaluation of the event is increasing.
    Rising,
    /// The evaluation of the event is decreasing.
    Falling,
    /// The previous and next evaluations are both greater than the current one.
    LocalMin,
    /// The previous and next evaluations are both lower than the current one.
    LocalMax,
    /// The edge could not be determined.
    Unclear,
}

/// An arc during which an event holds, from its rise epoch to its fall epoch
/// (both in TAI nanoseconds).
#[derive(Copy, Clone, PartialEq, Eq, Structural, Debug)]
pub struct EventArc {
    /// Epoch of the rising edge of the arc.
    pub rise: i128,
    /// Epoch of the falling edge of the arc.
    pub fall: i128,
}

impl EventArc {
    /// The epoch at which the arc starts.
    pub fn start_epoch(&self) -> (r: i128)
        ensures
            r == self.rise,
    {
        self.rise
    }

    /// The epoch at which the arc ends.
    pub fn end_epoch(&self) -> (r: i128)
        ensures
            r == self.fall,
    {
        self.fall
    }

    /// The duration of the arc, in nanoseconds: its end minus its start.
    pub fn duration(&self) -> (r: i128)
        requires
            is_epoch_ns(self.rise),
            is_epoch_ns(self.fall),
        ensures
            r == self.fall - self.rise,
    {
        self.fall - self.rise
    }
}

/// How the evaluation of an event one step before or after a found event
/// compares with the evaluation at that event.
#[derive(Copy, Clone, PartialEq, Eq, Structural, Debug)]
pub enum NeighborValue {
    /// The neighbouring evaluation is greater.
    Above,
    /// The neighbouring evaluation is lower.
    Below,
    /// Neither greater nor lower (equal, or not comparable).
    Level,
}

/// The edge of an event given how its neighbouring evaluations compare with it.
pub open spec fn spec_edge_from_neighbors(prev: Option<NeighborValue>, next: Option<NeighborValue>) -> EventEdge {
    match (prev, next) {
        (Some(NeighborValue::Above), Some(NeighborValue::Below)) => EventEdge::Falling,
        (Some(NeighborValue::Above), Some(_)) => EventEdge::LocalMin,
        (Some(NeighborValue::Below), Some(NeighborValue::Above)) => EventEdge::Rising,
        (Some(NeighborValue::Below), Some(_)) => EventEdge::LocalMax,
        (Some(NeighborValue::Level), Some(_)) => EventEdge::Unclear,
        (Some(NeighborValue::Above), None) => EventEdge::Falling,
        (Some(_), None) => EventEdge::Rising,
        (None, Some(NeighborValue::Above)) => EventEdge::Rising,
        (None, Some(_)) => EventEdge::Falling,
        (None, None) => EventEdge::Unclear,
    }
}

impl EventEdge {
    /// Determines the edge of an event from its evaluation one epoch step
    /// before (`prev`) and after (`next`) it: with both neighbours, a decrease
    /// through the event is `Falling`, an increase `Rising`, a dip `LocalMin`,
    /// a peak `LocalMax`, and a level previous value `Unclear`; with one
    /// neighbour, the direction towards it decides; with none, `Unclear`.
    pub fn from_neighbors(prev: Option<NeighborValue>, next: Option<NeighborValue>) -> (r: EventEdge)
        ensures
            r == spec_edge_from_neighbors(prev, next),
    {
        match prev {
            Some(p) => match next {
                Some(n) => match p {
                    NeighborValue::Above => match n {
                        NeighborValue::Below => EventEdge::Falling,
                        _ => EventEdge::LocalMin,
                    },
                    NeighborValue::Below => match n {
                        NeighborValue::Above => EventEdge::Rising,
                        _ => EventEdge::LocalMax,
                    },
                    NeighborValue::Level => EventEdge::Unclear,
                },
                None => match p {
                    NeighborValue::Above => EventEdge::Falling,
                    _ => EventEdge::Rising,
                },
            },
            None => match next {
                Some(n) => match n {
                    NeighborValue::Above => EventEdge::Rising,
                    _ => EventEdge::Falling,
                },
                None => EventEdge::Unclear,
            },
        }
    }
}

/// The arcs formed by successive boundary crossings, each crossing flipping
/// between inside and outside, starting with the open rise `rise` (present
/// when the search starts inside an arc); returns the closed arcs and the rise
/// still open after the last crossing.
pub open spec fn spec_pair_crossings<T>(rise: Option<T>, crossings: Seq<T>) -> (Seq<(T, T)>, Option<T>)
    decreases crossings.len(),
{
    if crossings.len() == 0 {
        (seq![], rise)
    } else {
        let prev = spec_pair_crossings(rise, crossings.drop_last());
        match prev.1 {
            Some(r) => (prev.0.push((r, crossings.last())), None),
            None => (prev.0, Some(crossings.last())),
        }
    }
}

/// Pairs successive boundary crossings into arcs: when inside an arc, a
/// crossing closes it (a fall); when outside, a crossing opens one (a rise).
/// `rise` is the open rise at the start of the search, if the search starts
/// inside an arc. Returns the closed arcs, in order, and the rise left open
/// after the last crossing (which then lasts until the end of the search).
pub fn pair_crossings<T>(rise: Option<T>, crossings: Vec<T>) -> (r: (Vec<(T, T)>, Option<T>))
    ensures
        (r.0@, r.1) == spec_pair_crossings(rise, crossings@),
{
    let ghost all = crossings@;
    let total = crossings.len();
    let mut rest = crossings;
    let mut arcs: Vec<(T, T)> = Vec::new();
    let mut open = rise;
    let mut done: usize = 0;
    while rest.len() > 0
        invariant
            done + rest@.len() == all.len(),
            all.len() == total,
            rest@ == all.skip(done as int),
            (arcs@, open) == spec_pair_crossings(rise, all.take(done as int)),
        decreases rest@.len(),
    {
        let crossing = rest.remove(0);
        proof {
            assert(all.take(done + 1).drop_last() =~= all.take(done as int));
            assert(all.take(done + 1).last() == crossing);
        }
        match open {
            Some(r) => {
                arcs.push((r, crossing));
                open = None;
            },
            None => {
                open = Some(crossing);
            },
        }
        done = done + 1;
        proof {
            assert(rest@ =~= all.skip(done as int));
        }
    }
    proof {
        assert(all.take(done as int) =~= all);
    }
    (arcs, open)
}

/// Crossings alternate between rises and falls: starting outside an arc, the
/// arcs are the crossings taken two by two, and an odd crossing count leaves
/// the last crossing as an open rise.
pub proof fn lemma_pair_crossings_outside<T>(crossings: Seq<T>)
    ensures
        spec_pair_crossings(None::<T>, crossings).0.len() == crossings.len() / 2,
        forall|j: int|
            0 <= j < crossings.len() / 2 ==> #[trigger] spec_pair_crossings(None::<T>, crossings).0[j]
                == (crossings[2 * j], crossings[2 * j + 1]),
        spec_pair_crossings(None::<T>, crossings).1 == (if crossings.len() % 2 == 1 {
            Some(crossings.last())
        } else {
            None
        }),
    decreases crossings.len(),
{
    if crossings.len() > 0 {
        let t = crossings.drop_last();
        lemma_pair_crossings_outside(t);
        let prev = spec_pair_crossings(None::<T>, t);
        let cur = spec_pair_crossings(None::<T>, crossings);
        assert forall|j: int| 0 <= j < crossings.len() / 2 implies #[trigger] cur.0[j] == (
        crossings[2 * j], crossings[2 * j + 1]) by {
            if j < t.len() / 2 {
                assert(cur.0[j] == prev.0[j]);
                assert(t[2 * j] == crossings[2 * j]);
                assert(t[2 * j + 1] == crossings[2 * j + 1]);
            } else {
                assert(t.len() % 2 == 1);
                assert(t[t.len() - 1] == crossings[2 * j]);
            }
        }
    }
}

/// Starting inside an arc whose rise is `r`, the first crossing closes that
/// arc and the remaining crossings pair up as when starting outside.
pub proof fn lemma_pair_crossings_inside<T>(r: T, crossings: Seq<T>)
    requires
        crossings.len() > 0,
    ensures
        spec_pair_crossings(Some(r), crossings) == ({
            let rest = spec_pair_crossings(None::<T>, crossings.drop_first());
            (seq![(r, crossings[0])] + rest.0, rest.1)
        }),
    decreases crossings.len(),
{
    if crossings.len() == 1 {
        assert(crossings.drop_first() =~= Seq::<T>::empty());
        assert(spec_pair_crossings(Some(r), crossings.drop_last()) == (Seq::<(T, T)>::empty(), Some(r)));
        assert(seq![(r, crossings[0])] + Seq::<(T, T)>::empty() =~= seq![(r, crossings[0])]);
    } else {
        let t = crossings.drop_last();
        lemma_pair_crossings_inside(r, t);
        assert(t.drop_first() =~= crossings.drop_first().drop_last());
        assert(crossings.drop_first().last() == crossings.last());
        let rest_t = spec_pair_crossings(None::<T>, t.drop_first());
        match rest_t.1 {
            Some(x) => {
                assert(seq![(r, crossings[0])] + rest_t.0.push((x, crossings.last())) =~= (seq![
                    (r, crossings[0]),
                ] + rest_t.0).push((x, crossings.last())));
            },
            None => {},
        }
    }
}

/// The kind of the condition of an event, without its threshold values.
#[derive(Copy, Clone, PartialEq, Eq, Structural, Debug)]
pub enum ConditionKind {
    /// The scalar equals a value.
    Equals,
    /// The scalar lies between two values.
    Between,
    /// The scalar is less than a value.
    LessThan,
    /// The scalar is greater than a value.
    GreaterThan,
    /// The scalar reaches a minimum.
    Minimum,
    /// The scalar reaches a maximum.
    Maximum,
}

impl ConditionKind {
    /// Whether the events of this condition are instants, searched as
    /// individual events, rather than arcs, searched as event arcs.
    pub fn is_individual(&self) -> (r: bool)
        ensures
            r == (*self is Equals || *self is Minimum || *self is Maximum),
    {
        match self {
            ConditionKind::Equals | ConditionKind::Minimum | ConditionKind::Maximum => true,
            _ => false,
        }
    }

    /// Whether, when the scalar never crosses its threshold during a search,
    /// the event holds for the whole search: not for `LessThan` when the
    /// scalar starts at or above the threshold, nor for `GreaterThan` when it
    /// starts below it.
    pub fn holds_throughout(&self, start_at_or_above: bool) -> (r: bool)
        ensures
            r == !((*self is LessThan && start_at_or_above) || (*self is GreaterThan && !start_at_or_above)),
    {
        match self {
            ConditionKind::LessThan => !start_at_or_above,
            ConditionKind::GreaterThan => start_at_or_above,
            _ => true,
        }
    }

    /// Whether an extremum found with this edge is reported: a minimum keeps
    /// local minima and rising edges, a maximum local maxima and falling
    /// edges (an extremum at the end of the search may lack a neighbour).
    pub fn keeps_extremum(&self, edge: EventEdge) -> (r: bool)
        requires
            *self is Minimum || *self is Maximum,
        ensures
            *self is Minimum ==> r == (edge is LocalMin || edge is Rising),
            *self is Maximum ==> r == (edge is LocalMax || edge is Falling),
    {
        match self {
            ConditionKind::Minimum => match edge {
                EventEdge::LocalMin | EventEdge::Rising => true,
                _ => false,
            },
            _ => match edge {
                EventEdge::LocalMax | EventEdge::Falling => true,
                _ => false,
            },
        }
    }
}

fn insert_event_by_epoch<T>(v: &mut Vec<(i128, T)>, x: (i128, T))
    ensures
        final(v)@ == insert_by_epoch(old(v)@, x),
{
    let ghost s = v@;
    let mut j: usize = v.len();
    while j > 0 && x.0 < v[j - 1].0
        invariant
            j <= v.len(),
            s == v@,
            forall|m: int| j <= m < s.len() ==> x.0 < #[trigger] s[m].0,
        decreases j,
    {
        j = j - 1;
    }
    proof {
        lemma_insert_by_epoch_at(s, x, j as int);
    }
    let ghost xv = x;
    v.insert(j, x);
    assert(v@ =~= s.take(j as int) + seq![xv] + s.skip(j as int));
}

/// Sorts found events by their epoch (TAI nanoseconds), events of the same
/// epoch keeping their order: a stable sort.
pub fn sort_events_by_epoch<T>(events: Vec<(i128, T)>) -> (r: Vec<(i128, T)>)
    ensures
        r@ == sort_by_epoch(events@),
{
    let ghost all = events@;
    let mut rest = events;
    let mut out: Vec<(i128, T)> = Vec::new();
    let mut done: usize = 0;
    let total = rest.len();
    while rest.len() > 0
        invariant
            done + rest@.len() == all.len(),
            total == all.len(),
            rest@ == all.skip(done as int),
            out@ == sort_by_epoch(all.take(done as int)),
        decreases rest@.len(),
    {
        let ghost before = rest@;
        let x = rest.remove(0);
        proof {
            assert(all.take(done + 1).drop_last() =~= all.take(done as int));
            assert(all.take(done + 1).last() == x);
            assert(rest@ =~= all.skip(done + 1));
        }
        insert_event_by_epoch(&mut out, x);
        done = done + 1;
    }
    assert(all.take(done as int) =~= all);
    out
}

} // verus!
