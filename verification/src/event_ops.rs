//! Intersection of several timelines of event arcs, by a sweep over the
//! boundaries of all arcs in chronological order.
use vstd::prelude::*;

use crate::event::{EventArc, EventEdge};
use crate::event_merge::{merge_timelines_exec, merged_timelines};

verus! {

/// A boundary of an arc of one timeline.
#[derive(Copy, Clone, PartialEq, Eq, Structural, Debug)]
pub struct EventPoint {
    /// Epoch of the boundary, in TAI nanoseconds.
    pub epoch: i128,
    /// `Rising` for the start of an arc, `Falling` for its end.
    pub kind: EventEdge,
    /// Index of the timeline that the arc belongs to.
    pub list_id: usize,
    /// Index of the arc within its timeline.
    pub arc_id: usize,
}

/// The rank of an edge in the order of edges (the order of their declaration).
pub open spec fn edge_rank(k: EventEdge) -> int {
    match k {
        EventEdge::Rising => 0,
        EventEdge::Falling => 1,
        EventEdge::LocalMin => 2,
        EventEdge::LocalMax => 3,
        EventEdge::Unclear => 4,
    }
}

/// Points are ordered by epoch and, at equal epochs, rises come before falls.
pub open spec fn point_lt(a: EventPoint, b: EventPoint) -> bool {
    a.epoch < b.epoch || (a.epoch == b.epoch && edge_rank(a.kind) < edge_rank(b.kind))
}

/// The start boundary of an arc.
pub open spec fn rise_point(arc: EventArc, list_id: usize, arc_id: usize) -> EventPoint {
    EventPoint { epoch: arc.rise, kind: EventEdge::Rising, list_id, arc_id }
}

/// The end boundary of an arc.
pub open spec fn fall_point(arc: EventArc, list_id: usize, arc_id: usize) -> EventPoint {
    EventPoint { epoch: arc.fall, kind: EventEdge::Falling, list_id, arc_id }
}

/// The boundaries of the arcs of one timeline: for each arc, its start then its end.
pub open spec fn timeline_points(arcs: Seq<EventArc>, list_id: usize) -> Seq<EventPoint>
    decreases arcs.len(),
{
    if arcs.len() == 0 {
        seq![]
    } else {
        let k = (arcs.len() - 1) as usize;
        timeline_points(arcs.drop_last(), list_id) + seq![
            rise_point(arcs.last(), list_id, k),
            fall_point(arcs.last(), list_id, k),
        ]
    }
}

/// The boundaries of all arcs of all timelines, timeline after timeline.
pub open spec fn all_points(tls: Seq<Seq<EventArc>>) -> Seq<EventPoint>
    decreases tls.len(),
{
    if tls.len() == 0 {
        seq![]
    } else {
        all_points(tls.drop_last()) + timeline_points(tls.last(), (tls.len() - 1) as usize)
    }
}

/// Inserts `x` into `s` after every point that does not come after `x`.
pub open spec fn insert_point(s: Seq<EventPoint>, x: EventPoint) -> Seq<EventPoint>
    decreases s.len(),
{
    if s.len() == 0 {
        seq![x]
    } else if point_lt(x, s.last()) {
        insert_point(s.drop_last(), x).push(s.last())
    } else {
        s.push(x)
    }
}

/// The points of `s` in chronological order; points that compare equal keep
/// their order in `s` (a stable sort).
pub open spec fn sort_points(s: Seq<EventPoint>) -> Seq<EventPoint>
    decreases s.len(),
{
    if s.len() == 0 {
        seq![]
    } else {
        insert_point(sort_points(s.drop_last()), s.last())
    }
}

/// Whether every timeline is inside one of its arcs.
pub open spec fn all_true(s: Seq<bool>) -> bool {
    forall|i: int| 0 <= i < s.len() ==> #[trigger] s[i]
}

/// State of the sweep: which timelines are active, the start of the current
/// intersection, and the windows found so far.
pub type SweepState = (Seq<bool>, Option<i128>, Seq<(i128, i128)>);

/// Processes one boundary.
pub open spec fn sweep_step(st: SweepState, p: EventPoint) -> SweepState {
    let was = all_true(st.0);
    let act = st.0.update(p.list_id as int, p.kind == EventEdge::Rising);
    let now = all_true(act);
    if !was && now {
        (act, Some(p.epoch), st.2)
    } else if was && !now {
        match st.1 {
            Some(s) => (act, None, if p.epoch > s {
                st.2.push((s, p.epoch))
            } else {
                st.2
            }),
            None => (act, None, st.2),
        }
    } else {
        (act, st.1, st.2)
    }
}

/// The sweep state after the first `k` points of `pts`, for `n` timelines.
pub open spec fn sweep(pts: Seq<EventPoint>, n: nat, k: nat) -> SweepState
    decreases k,
{
    if k == 0 {
        (Seq::new(n, |i: int| false), None, seq![])
    } else {
        sweep_step(sweep(pts, n, (k - 1) as nat), pts[k - 1])
    }
}

/// The windows during which every timeline is inside one of its arcs.
pub open spec fn arc_intersections(tls: Seq<Seq<EventArc>>) -> Seq<(i128, i128)> {
    if tls.len() == 0 {
        seq![]
    } else {
        let pts = sort_points(all_points(tls));
        sweep(pts, tls.len(), pts.len()).2
    }
}

/// The timelines as sequences of arcs.
pub open spec fn timelines_view(v: Seq<Vec<EventArc>>) -> Seq<Seq<EventArc>> {
    v.map_values(|t: Vec<EventArc>| t@)
}

fn edge_rank_exec(k: EventEdge) -> (r: u8)
    ensures
        r as int == edge_rank(k),
{
    match k {
        EventEdge::Rising => 0,
        EventEdge::Falling => 1,
        EventEdge::LocalMin => 2,
        EventEdge::LocalMax => 3,
        EventEdge::Unclear => 4,
    }
}

fn point_lt_exec(a: &EventPoint, b: &EventPoint) -> (r: bool)
    ensures
        r == point_lt(*a, *b),
{
    a.epoch < b.epoch || (a.epoch == b.epoch && edge_rank_exec(a.kind) < edge_rank_exec(b.kind))
}

proof fn lemma_insert_point_at(s: Seq<EventPoint>, x: EventPoint, j: int)
    requires
        0 <= j <= s.len(),
        forall|m: int| j <= m < s.len() ==> point_lt(x, #[trigger] s[m]),
        j > 0 ==> !point_lt(x, s[j - 1]),
    ensures
        insert_point(s, x) == s.take(j) + seq![x] + s.skip(j),
    decreases s.len(),
{
    if s.len() == 0 {
        assert(s.take(j) + seq![x] + s.skip(j) =~= seq![x]);
    } else if point_lt(x, s.last()) {
        let t = s.drop_last();
        assert(j < s.len());
        assert forall|m: int| j <= m < t.len() implies point_lt(x, #[trigger] t[m]) by {
            assert(t[m] == s[m]);
        }
        if j > 0 {
            assert(t[j - 1] == s[j - 1]);
        }
        lemma_insert_point_at(t, x, j);
        assert(insert_point(s, x) =~= s.take(j) + seq![x] + s.skip(j));
    } else {
        assert(j == s.len());
        assert(s.take(j) + seq![x] + s.skip(j) =~= s.push(x));
    }
}

/// Inserts `x` into `v` after every element that does not come after `x`.
fn insert_point_exec(v: &mut Vec<EventPoint>, x: EventPoint)
    ensures
        final(v)@ == insert_point(old(v)@, x),
{
    let ghost s = v@;
    v.push(x);
    let mut i: usize = v.len() - 1;
    while i > 0 && point_lt_exec(&x, &v[i - 1])
        invariant
            0 <= i < v.len(),
            v.len() == s.len() + 1,
            v@ =~= s.take(i as int) + seq![x] + s.skip(i as int),
            forall|m: int| i <= m < s.len() ==> point_lt(x, #[trigger] s[m]),
        decreases i,
    {
        let prev = v[i - 1];
        v.set(i, prev);
        v.set(i - 1, x);
        i = i - 1;
    }
    proof {
        if i > 0 {
            assert(v@[i - 1] == s[i - 1]);
        }
        lemma_insert_point_at(s, x, i as int);
    }
}

/// Sorts the points chronologically, rises before falls at equal epochs,
/// keeping the order of points that compare equal.
fn sort_points_exec(pts: &Vec<EventPoint>) -> (r: Vec<EventPoint>)
    ensures
        r@ == sort_points(pts@),
{
    let mut out: Vec<EventPoint> = Vec::new();
    let mut i: usize = 0;
    while i < pts.len()
        invariant
            i <= pts.len(),
            out@ == sort_points(pts@.take(i as int)),
        decreases pts.len() - i,
    {
        proof {
            assert(pts@.take(i + 1).drop_last() =~= pts@.take(i as int));
        }
        insert_point_exec(&mut out, pts[i]);
        i = i + 1;
    }
    assert(pts@.take(pts.len() as int) =~= pts@);
    out
}

fn all_active(s: &Vec<bool>) -> (r: bool)
    ensures
        r == all_true(s@),
{
    let mut i: usize = 0;
    while i < s.len()
        invariant
            i <= s.len(),
            forall|j: int| 0 <= j < i ==> s@[j],
        decreases s.len() - i,
    {
        if !s[i] {
            return false;
        }
        i = i + 1;
    }
    true
}

pub(crate) proof fn lemma_timeline_points_ids(arcs: Seq<EventArc>, list_id: usize, p: EventPoint)
    requires
        timeline_points(arcs, list_id).contains(p),
    ensures
        p.list_id == list_id,
    decreases arcs.len(),
{
    if arcs.len() > 0 {
        let k = (arcs.len() - 1) as usize;
        let a = timeline_points(arcs.drop_last(), list_id);
        let b = seq![rise_point(arcs.last(), list_id, k), fall_point(arcs.last(), list_id, k)];
        let idx = choose|i: int| 0 <= i < (a + b).len() && (a + b)[i] == p;
        if idx < a.len() {
            assert(a[idx] == p);
            lemma_timeline_points_ids(arcs.drop_last(), list_id, p);
        }
    }
}

proof fn lemma_all_points_ids(tls: Seq<Seq<EventArc>>, p: EventPoint)
    requires
        all_points(tls).contains(p),
    ensures
        p.list_id < tls.len(),
    decreases tls.len(),
{
    if tls.len() > 0 {
        let a = all_points(tls.drop_last());
        let b = timeline_points(tls.last(), (tls.len() - 1) as usize);
        let idx = choose|i: int| 0 <= i < (a + b).len() && (a + b)[i] == p;
        if idx < a.len() {
            assert(a[idx] == p);
            lemma_all_points_ids(tls.drop_last(), p);
        } else {
            assert(b[idx - a.len()] == p);
            lemma_timeline_points_ids(tls.last(), (tls.len() - 1) as usize, p);
        }
    }
}

/// Every point of the sorted sequence is a point of the unsorted one, and back.
pub proof fn lemma_insert_point_contains(s: Seq<EventPoint>, x: EventPoint, y: EventPoint)
    ensures
        insert_point(s, x).contains(y) <==> (s.contains(y) || y == x),
        insert_point(s, x).len() == s.len() + 1,
    decreases s.len(),
{
    if s.len() == 0 {
        assert(insert_point(s, x) =~= seq![x]);
        assert(insert_point(s, x)[0] == x);
    } else if point_lt(x, s.last()) {
        let t = s.drop_last();
        lemma_insert_point_contains(t, x, y);
        let r = insert_point(t, x);
        if s.contains(y) {
            let i = choose|i: int| 0 <= i < s.len() && s[i] == y;
            if i == s.len() - 1 {
                assert(r.push(s.last())[r.len() as int] == y);
            } else {
                assert(t[i] == y);
                assert(r.contains(y));
                let j = choose|j: int| 0 <= j < r.len() && r[j] == y;
                assert(r.push(s.last())[j] == y);
            }
        }
        if y == x {
            assert(r.contains(x));
            let j = choose|j: int| 0 <= j < r.len() && r[j] == x;
            assert(r.push(s.last())[j] == x);
        }
        if insert_point(s, x).contains(y) {
            let j = choose|j: int| 0 <= j < r.len() + 1 && r.push(s.last())[j] == y;
            if j == r.len() {
                assert(s[s.len() - 1] == y);
            } else {
                assert(r[j] == y);
                if t.contains(y) {
                    let i = choose|i: int| 0 <= i < t.len() && t[i] == y;
                    assert(s[i] == y);
                }
            }
        }
    } else {
        if s.contains(y) {
            let i = choose|i: int| 0 <= i < s.len() && s[i] == y;
            assert(s.push(x)[i] == y);
        }
        if y == x {
            assert(s.push(x)[s.len() as int] == y);
        }
        if s.push(x).contains(y) {
            let j = choose|j: int| 0 <= j < s.len() + 1 && s.push(x)[j] == y;
            if j < s.len() {
                assert(s[j] == y);
            }
        }
    }
}

/// Sorting keeps exactly the points that were there.
pub proof fn lemma_sort_points_contains(s: Seq<EventPoint>, y: EventPoint)
    ensures
        sort_points(s).contains(y) <==> s.contains(y),
        sort_points(s).len() == s.len(),
    decreases s.len(),
{
    if s.len() > 0 {
        let t = s.drop_last();
        lemma_sort_points_contains(t, y);
        lemma_insert_point_contains(sort_points(t), s.last(), y);
        if s.contains(y) {
            let i = choose|i: int| 0 <= i < s.len() && s[i] == y;
            if i < s.len() - 1 {
                assert(t[i] == y);
            }
        }
        if t.contains(y) {
            let i = choose|i: int| 0 <= i < t.len() && t[i] == y;
            assert(s[i] == y);
        }
    }
}

/// Whether the points are in chronological order (no point comes after a later one).
pub open spec fn points_sorted(s: Seq<EventPoint>) -> bool {
    forall|i: int, j: int| 0 <= i < j < s.len() ==> !point_lt(#[trigger] s[j], #[trigger] s[i])
}

proof fn lemma_insert_point_sorted(s: Seq<EventPoint>, x: EventPoint)
    requires
        points_sorted(s),
    ensures
        points_sorted(insert_point(s, x)),
    decreases s.len(),
{
    if s.len() == 0 {
    } else if point_lt(x, s.last()) {
        let t = s.drop_last();
        assert(points_sorted(t)) by {
            assert forall|i: int, j: int| 0 <= i < j < t.len() implies !point_lt(
                #[trigger] t[j],
                #[trigger] t[i],
            ) by {
                assert(t[i] == s[i] && t[j] == s[j]);
            }
        }
        lemma_insert_point_sorted(t, x);
        let r = insert_point(t, x);
        assert forall|i: int, j: int| 0 <= i < j < r.len() + 1 implies !point_lt(
            #[trigger] r.push(s.last())[j],
            #[trigger] r.push(s.last())[i],
        ) by {
            if j == r.len() {
                lemma_insert_point_contains(t, x, r[i]);
                assert(r.contains(r[i]));
                if r[i] != x {
                    let m = choose|m: int| 0 <= m < t.len() && t[m] == r[i];
                    assert(s[m] == r[i]);
                    assert(!point_lt(s[s.len() - 1], s[m]));
                }
            } else {
                assert(r.push(s.last())[j] == r[j]);
                assert(r.push(s.last())[i] == r[i]);
            }
        }
    } else {
        assert forall|i: int, j: int| 0 <= i < j < s.len() + 1 implies !point_lt(
            #[trigger] s.push(x)[j],
            #[trigger] s.push(x)[i],
        ) by {
            if j == s.len() {
                if i < s.len() - 1 {
                    assert(!point_lt(s[s.len() - 1], s[i]));
                }
            } else {
                assert(s.push(x)[j] == s[j]);
                assert(s.push(x)[i] == s[i]);
            }
        }
    }
}

/// The sorted points are in chronological order.
pub proof fn lemma_sort_points_sorted(s: Seq<EventPoint>)
    ensures
        points_sorted(sort_points(s)),
    decreases s.len(),
{
    if s.len() > 0 {
        lemma_sort_points_sorted(s.drop_last());
        lemma_insert_point_sorted(sort_points(s.drop_last()), s.last());
    }
}

/// Whether the windows are each non-empty and follow each other with a gap.
pub open spec fn windows_ordered(w: Seq<(i128, i128)>) -> bool {
    &&& forall|j: int| 0 <= j < w.len() ==> (#[trigger] w[j]).0 < w[j].1
    &&& forall|j: int| 0 <= j < w.len() - 1 ==> (#[trigger] w[j]).1 < w[j + 1].0
}

/// The facts that every state of a sweep over chronologically ordered points keeps.
pub open spec fn sweep_invariant(pts: Seq<EventPoint>, n: nat, k: nat) -> bool {
    let st = sweep(pts, n, k);
    &&& st.0.len() == n
    &&& st.1.is_some() == all_true(st.0)
    &&& windows_ordered(st.2)
    &&& st.2.len() > 0 ==> exists|q: int|
        0 <= q < k && (#[trigger] pts[q]).kind != EventEdge::Rising && pts[q].epoch
            == st.2.last().1
    &&& st.1 matches Some(s) ==> (st.2.len() > 0 ==> st.2.last().1 < s)
}

pub(crate) proof fn lemma_sweep_invariant(pts: Seq<EventPoint>, n: nat, k: nat)
    requires
        points_sorted(pts),
        n >= 1,
        forall|i: int| 0 <= i < pts.len() ==> (#[trigger] pts[i]).list_id < n,
        k <= pts.len(),
    ensures
        sweep_invariant(pts, n, k),
    decreases k,
{
    if k == 0 {
        let st = sweep(pts, n, 0);
        assert(!st.0[0]);
    } else {
        lemma_sweep_invariant(pts, n, (k - 1) as nat);
        let old_st = sweep(pts, n, (k - 1) as nat);
        let p = pts[k - 1];
        let st = sweep(pts, n, k);
        let act = old_st.0.update(p.list_id as int, p.kind == EventEdge::Rising);
        assert(st.0 == act);
        if p.kind != EventEdge::Rising {
            assert(!act[p.list_id as int]);
        } else {
            if all_true(old_st.0) {
                assert forall|i: int| 0 <= i < act.len() implies #[trigger] act[i] by {
                    if i != p.list_id {
                        assert(act[i] == old_st.0[i]);
                    }
                }
            }
        }
        if !all_true(old_st.0) && all_true(act) {
            if old_st.2.len() > 0 {
                let q = choose|q: int|
                    0 <= q < k - 1 && (#[trigger] pts[q]).kind != EventEdge::Rising
                        && pts[q].epoch == old_st.2.last().1;
                assert(!point_lt(pts[k - 1], pts[q]));
            }
        } else if all_true(old_st.0) && !all_true(act) {
            assert(p.kind == EventEdge::Falling || p.kind != EventEdge::Rising);
            match old_st.1 {
                Some(s) => {
                    if p.epoch > s {
                        let w = old_st.2.push((s, p.epoch));
                        assert(w.last().1 == pts[k - 1].epoch);
                        assert(pts[k - 1].kind != EventEdge::Rising);
                        assert(windows_ordered(w)) by {
                            assert forall|j: int| 0 <= j < w.len() implies (#[trigger] w[j]).0
                                < w[j].1 by {
                                if j < old_st.2.len() {
                                    assert(w[j] == old_st.2[j]);
                                }
                            }
                            assert forall|j: int| 0 <= j < w.len() - 1 implies (
                            #[trigger] w[j]).1 < w[j + 1].0 by {
                                assert(w[j] == old_st.2[j]);
                                if j + 1 < old_st.2.len() {
                                    assert(w[j + 1] == old_st.2[j + 1]);
                                }
                            }
                        }
                    }
                },
                None => {},
            }
            if st.2.len() > 0 && st.2 == old_st.2 {
                let q = choose|q: int|
                    0 <= q < k - 1 && (#[trigger] pts[q]).kind != EventEdge::Rising
                        && pts[q].epoch == old_st.2.last().1;
                assert(0 <= q < k);
            }
        } else {
            if st.2.len() > 0 {
                let q = choose|q: int|
                    0 <= q < k - 1 && (#[trigger] pts[q]).kind != EventEdge::Rising
                        && pts[q].epoch == old_st.2.last().1;
                assert(0 <= q < k);
            }
        }
    }
}

/// Every window found is non-empty, and the windows are in chronological order
/// with a gap between each window and the next.
pub proof fn lemma_arc_intersections_ordered(tls: Seq<Seq<EventArc>>)
    ensures
        windows_ordered(arc_intersections(tls)),
{
    if tls.len() > 0 {
        let pts = sort_points(all_points(tls));
        lemma_sort_points_sorted(all_points(tls));
        assert forall|i: int| 0 <= i < pts.len() implies (#[trigger] pts[i]).list_id
            < tls.len() by {
            assert(pts.contains(pts[i]));
            lemma_sort_points_contains(all_points(tls), pts[i]);
            lemma_all_points_ids(tls, pts[i]);
        }
        lemma_sweep_invariant(pts, tls.len(), pts.len());
    }
}

pub(crate) proof fn lemma_timeline_points_member(arcs: Seq<EventArc>, id: usize, p: EventPoint)
    requires
        arcs.len() <= usize::MAX,
        timeline_points(arcs, id).contains(p),
    ensures
        exists|a: int|
            0 <= a < arcs.len() && (p == rise_point(#[trigger] arcs[a], id, a as usize) || p
                == fall_point(arcs[a], id, a as usize)),
    decreases arcs.len(),
{
    let k = arcs.len() - 1;
    let t = arcs.drop_last();
    let a = timeline_points(t, id);
    let b = seq![rise_point(arcs.last(), id, k as usize), fall_point(arcs.last(), id, k as usize)];
    let idx = choose|i: int| 0 <= i < (a + b).len() && (a + b)[i] == p;
    if idx < a.len() {
        assert(a[idx] == p);
        lemma_timeline_points_member(t, id, p);
        let j = choose|j: int|
            0 <= j < t.len() && (p == rise_point(#[trigger] t[j], id, j as usize) || p
                == fall_point(t[j], id, j as usize));
        assert(arcs[j] == t[j]);
    } else {
        assert(b[idx - a.len()] == p);
        assert(arcs[k] == arcs.last());
    }
}

pub(crate) proof fn lemma_timeline_points_has(arcs: Seq<EventArc>, id: usize, a: int)
    requires
        arcs.len() <= usize::MAX,
        0 <= a < arcs.len(),
    ensures
        timeline_points(arcs, id).contains(rise_point(arcs[a], id, a as usize)),
        timeline_points(arcs, id).contains(fall_point(arcs[a], id, a as usize)),
    decreases arcs.len(),
{
    let k = arcs.len() - 1;
    let t = arcs.drop_last();
    let x = timeline_points(t, id);
    let b = seq![rise_point(arcs.last(), id, k as usize), fall_point(arcs.last(), id, k as usize)];
    let r = rise_point(arcs[a], id, a as usize);
    let f = fall_point(arcs[a], id, a as usize);
    if a < k {
        assert(arcs[a] == t[a]);
        lemma_timeline_points_has(t, id, a);
        let i = choose|i: int| 0 <= i < x.len() && x[i] == r;
        assert((x + b)[i] == r);
        let j = choose|j: int| 0 <= j < x.len() && x[j] == f;
        assert((x + b)[j] == f);
    } else {
        assert((x + b)[x.len() as int] == r);
        assert((x + b)[x.len() + 1int] == f);
    }
}

pub(crate) proof fn lemma_all_points_member(tls: Seq<Seq<EventArc>>, p: EventPoint)
    requires
        all_points(tls).contains(p),
    ensures
        exists|i: int|
            0 <= i < tls.len() && timeline_points(#[trigger] tls[i], i as usize).contains(p),
    decreases tls.len(),
{
    let t = tls.drop_last();
    let a = all_points(t);
    let b = timeline_points(tls.last(), (tls.len() - 1) as usize);
    let idx = choose|i: int| 0 <= i < (a + b).len() && (a + b)[i] == p;
    if idx < a.len() {
        assert(a[idx] == p);
        lemma_all_points_member(t, p);
        let i = choose|i: int|
            0 <= i < t.len() && timeline_points(#[trigger] t[i], i as usize).contains(p);
        assert(tls[i] == t[i]);
    } else {
        assert(b[idx - a.len()] == p);
        assert(tls[tls.len() - 1] == tls.last());
    }
}

pub(crate) proof fn lemma_all_points_has(tls: Seq<Seq<EventArc>>, i: int, p: EventPoint)
    requires
        0 <= i < tls.len(),
        timeline_points(tls[i], i as usize).contains(p),
    ensures
        all_points(tls).contains(p),
    decreases tls.len(),
{
    let t = tls.drop_last();
    let a = all_points(t);
    let b = timeline_points(tls.last(), (tls.len() - 1) as usize);
    if i < tls.len() - 1 {
        assert(tls[i] == t[i]);
        lemma_all_points_has(t, i, p);
        let j = choose|j: int| 0 <= j < a.len() && a[j] == p;
        assert((a + b)[j] == p);
    } else {
        let j = choose|j: int| 0 <= j < b.len() && b[j] == p;
        assert((a + b)[a.len() + j] == p);
    }
}

/// Whether every arc of every timeline rises no later than it falls.
pub open spec fn arcs_well_formed(tls: Seq<Seq<EventArc>>) -> bool {
    forall|i: int, a: int|
        0 <= i < tls.len() && 0 <= a < tls[i].len() ==> (#[trigger] tls[i][a]).rise
            <= tls[i][a].fall
}

/// Whether timeline `i` has an arc that contains the window `w`.
pub open spec fn arc_covers(tls: Seq<Seq<EventArc>>, i: int, w: (i128, i128)) -> bool {
    exists|a: int| 0 <= a < tls[i].len() && (#[trigger] tls[i][a]).rise <= w.0 && w.1 <= tls[i][a].fall
}

/// Whether the window `w` lies within one arc of each timeline.
pub open spec fn window_covered(tls: Seq<Seq<EventArc>>, w: (i128, i128)) -> bool {
    forall|i: int| 0 <= i < tls.len() ==> #[trigger] arc_covers(tls, i, w)
}

/// Bounds on the timelines that arc indices and timeline indices fit in.
pub open spec fn timelines_fit(tls: Seq<Seq<EventArc>>) -> bool {
    &&& tls.len() <= usize::MAX
    &&& forall|i: int| 0 <= i < tls.len() ==> (#[trigger] tls[i]).len() <= usize::MAX
}

/// The sorted boundaries of all arcs of the timelines.
pub open spec fn swept_points(tls: Seq<Seq<EventArc>>) -> Seq<EventPoint> {
    sort_points(all_points(tls))
}

/// Index of the last of the first `k` points that belongs to timeline `i`, or -1.
pub open spec fn last_of(pts: Seq<EventPoint>, k: nat, i: int) -> int
    decreases k,
{
    if k == 0 {
        -1
    } else if pts[k - 1].list_id == i {
        k - 1
    } else {
        last_of(pts, (k - 1) as nat, i)
    }
}

pub(crate) proof fn lemma_last_of(pts: Seq<EventPoint>, k: nat, i: int)
    requires
        k <= pts.len(),
    ensures
        -1 <= last_of(pts, k, i) < k,
        last_of(pts, k, i) >= 0 ==> pts[last_of(pts, k, i)].list_id == i,
        forall|m: int| last_of(pts, k, i) < m < k ==> (#[trigger] pts[m]).list_id != i,
    decreases k,
{
    if k > 0 {
        lemma_last_of(pts, (k - 1) as nat, i);
    }
}

/// Whether timeline `i` has an arc that rises no later than `s` and whose end
/// is not among the first `k` sorted points.
pub open spec fn arc_open(tls: Seq<Seq<EventArc>>, k: nat, s: i128, i: int) -> bool {
    exists|a: int, f: int|
        0 <= a < tls[i].len() && k <= f < swept_points(tls).len() && (#[trigger] tls[i][a]).rise
            <= s && #[trigger] swept_points(tls)[f] == fall_point(tls[i][a], i as usize, a as usize)
}

/// Whether timeline `i`, when active after `k` points, last saw a rise.
pub open spec fn active_from_rise(tls: Seq<Seq<EventArc>>, k: nat, i: int) -> bool {
    sweep(swept_points(tls), tls.len(), k).0[i] ==> last_of(swept_points(tls), k, i) >= 0
        && swept_points(tls)[last_of(swept_points(tls), k, i)].kind == EventEdge::Rising
}

/// Facts on arcs kept by the sweep over the sorted boundaries of `tls`.
pub open spec fn sweep_cover_invariant(tls: Seq<Seq<EventArc>>, k: nat) -> bool {
    let st = sweep(swept_points(tls), tls.len(), k);
    &&& forall|i: int| 0 <= i < tls.len() ==> #[trigger] active_from_rise(tls, k, i)
    &&& forall|j: int| 0 <= j < st.2.len() ==> window_covered(tls, #[trigger] st.2[j])
    &&& st.1 matches Some(s) ==> forall|i: int|
        0 <= i < tls.len() ==> #[trigger] arc_open(tls, k, s, i)
}

pub(crate) proof fn lemma_sorted_ids(tls: Seq<Seq<EventArc>>)
    ensures
        points_sorted(swept_points(tls)),
        swept_points(tls).len() == all_points(tls).len(),
        forall|m: int|
            0 <= m < swept_points(tls).len() ==> (#[trigger] swept_points(tls)[m]).list_id
                < tls.len(),
{
    let all = all_points(tls);
    let pts = sort_points(all);
    lemma_sort_points_sorted(all);
    lemma_sort_points_contains(all, all[0]);
    assert forall|m: int| 0 <= m < pts.len() implies (#[trigger] pts[m]).list_id < tls.len() by {
        assert(pts.contains(pts[m]));
        lemma_sort_points_contains(all, pts[m]);
        lemma_all_points_ids(tls, pts[m]);
    }
}

/// When timeline `i` last saw a rise among the first `k` points, the arc of
/// that rise rises no later than the `k`-th point and has not ended yet.
proof fn lemma_cover_enter(tls: Seq<Seq<EventArc>>, k: nat, i: int)
    requires
        timelines_fit(tls),
        arcs_well_formed(tls),
        1 <= k <= all_points(tls).len(),
        0 <= i < tls.len(),
        last_of(swept_points(tls), k, i) >= 0,
        swept_points(tls)[last_of(swept_points(tls), k, i)].kind == EventEdge::Rising,
    ensures
        arc_open(tls, k, swept_points(tls)[k - 1].epoch, i),
{
    let all = all_points(tls);
    let pts = swept_points(tls);
    lemma_sorted_ids(tls);
    lemma_last_of(pts, k, i);
    let q = last_of(pts, k, i);
    let r = pts[q];
    assert(pts.contains(r));
    lemma_sort_points_contains(all, r);
    lemma_all_points_member(tls, r);
    let ii = choose|ii: int|
        0 <= ii < tls.len() && timeline_points(#[trigger] tls[ii], ii as usize).contains(r);
    lemma_timeline_points_ids(tls[ii], ii as usize, r);
    assert(ii == i);
    lemma_timeline_points_member(tls[i], i as usize, r);
    let a = choose|a: int|
        0 <= a < tls[i].len() && (r == rise_point(#[trigger] tls[i][a], i as usize, a as usize)
            || r == fall_point(tls[i][a], i as usize, a as usize));
    assert(r == rise_point(tls[i][a], i as usize, a as usize));
    let fp = fall_point(tls[i][a], i as usize, a as usize);
    lemma_timeline_points_has(tls[i], i as usize, a);
    lemma_all_points_has(tls, i, fp);
    lemma_sort_points_contains(all, fp);
    let f = choose|f: int| 0 <= f < pts.len() && pts[f] == fp;
    assert(point_lt(r, fp));
    if f < q {
        assert(!point_lt(pts[q], pts[f]));
    }
    assert(f != q);
    if f < k {
        assert(pts[f].list_id == i);
    }
    if q < k - 1 {
        assert(!point_lt(pts[k - 1], pts[q]));
    }
    assert(tls[i][a].rise <= pts[k - 1].epoch);
    assert(0 <= a < tls[i].len() && k <= f < pts.len() && tls[i][a].rise <= pts[k - 1].epoch
        && pts[f] == fall_point(tls[i][a], i as usize, a as usize));
}

proof fn lemma_cover_step(tls: Seq<Seq<EventArc>>, k: nat)
    requires
        tls.len() >= 1,
        timelines_fit(tls),
        arcs_well_formed(tls),
        1 <= k <= all_points(tls).len(),
        sweep_cover_invariant(tls, (k - 1) as nat),
    ensures
        sweep_cover_invariant(tls, k),
{
    let pts = swept_points(tls);
    let n = tls.len();
    lemma_sorted_ids(tls);
    lemma_sweep_invariant(pts, n, (k - 1) as nat);
    let old_st = sweep(pts, n, (k - 1) as nat);
    let st = sweep(pts, n, k);
    let p = pts[k - 1];
    let act = old_st.0.update(p.list_id as int, p.kind == EventEdge::Rising);
    assert(st.0 == act);
    assert forall|i: int| 0 <= i < n implies #[trigger] active_from_rise(tls, k, i) by {
        if i != p.list_id {
            assert(act[i] == old_st.0[i]);
            assert(active_from_rise(tls, (k - 1) as nat, i));
        }
    }
    let was = all_true(old_st.0);
    let now = all_true(act);
    if !was && now {
        assert forall|i: int| 0 <= i < n implies #[trigger] arc_open(tls, k, p.epoch, i) by {
            assert(act[i]);
            assert(active_from_rise(tls, k, i));
            lemma_cover_enter(tls, k, i);
        }
    } else if was && !now {
        match old_st.1 {
            Some(s) => {
                if p.epoch > s {
                    let w = (s, p.epoch);
                    assert forall|i: int| 0 <= i < n implies #[trigger] arc_covers(tls, i, w) by {
                        assert(arc_open(tls, (k - 1) as nat, s, i));
                        let (a, f) = choose|a: int, f: int|
                            0 <= a < tls[i].len() && k - 1 <= f < pts.len() && (
                            #[trigger] tls[i][a]).rise <= s && #[trigger] pts[f] == fall_point(
                                tls[i][a],
                                i as usize,
                                a as usize,
                            );
                        if f > k - 1 {
                            assert(!point_lt(pts[f], pts[k - 1]));
                        }
                        assert(pts[f].epoch == tls[i][a].fall);
                        assert(0 <= a < tls[i].len() && tls[i][a].rise <= w.0 && w.1
                            <= tls[i][a].fall);
                    }
                    assert(window_covered(tls, w));
                    assert forall|j: int| 0 <= j < st.2.len() implies window_covered(
                        tls,
                        #[trigger] st.2[j],
                    ) by {
                        if j < old_st.2.len() {
                            assert(st.2[j] == old_st.2[j]);
                        }
                    }
                }
            },
            None => {},
        }
    } else if was {
        assert(p.kind == EventEdge::Rising) by {
            if p.kind != EventEdge::Rising {
                assert(!act[p.list_id as int]);
            }
        }
        match old_st.1 {
            Some(s) => {
                assert forall|i: int| 0 <= i < n implies #[trigger] arc_open(tls, k, s, i) by {
                    assert(arc_open(tls, (k - 1) as nat, s, i));
                    let (a, f) = choose|a: int, f: int|
                        0 <= a < tls[i].len() && k - 1 <= f < pts.len() && (
                        #[trigger] tls[i][a]).rise <= s && #[trigger] pts[f] == fall_point(
                            tls[i][a],
                            i as usize,
                            a as usize,
                        );
                    assert(f != k - 1);
                    assert(0 <= a < tls[i].len() && k <= f < pts.len() && tls[i][a].rise <= s
                        && pts[f] == fall_point(tls[i][a], i as usize, a as usize));
                }
            },
            None => {},
        }
    }
}

proof fn lemma_sweep_cover(tls: Seq<Seq<EventArc>>, k: nat)
    requires
        tls.len() >= 1,
        timelines_fit(tls),
        arcs_well_formed(tls),
        k <= all_points(tls).len(),
    ensures
        sweep_cover_invariant(tls, k),
    decreases k,
{
    if k > 0 {
        lemma_sweep_cover(tls, (k - 1) as nat);
        lemma_cover_step(tls, k);
    }
}

/// Soundness of the intersection: when every arc rises no later than it falls,
/// every window found lies within one arc of each timeline.
pub proof fn lemma_arc_intersections_covered(tls: Seq<Seq<EventArc>>)
    requires
        timelines_fit(tls),
        arcs_well_formed(tls),
    ensures
        forall|j: int|
            0 <= j < arc_intersections(tls).len() ==> window_covered(
                tls,
                #[trigger] arc_intersections(tls)[j],
            ),
{
    if tls.len() > 0 {
        lemma_sorted_ids(tls);
        lemma_sweep_cover(tls, all_points(tls).len());
    }
}

/// Finds the windows `(start, end)`, `start < end`, during which every one of
/// the timelines is inside one of its arcs. The arcs of each timeline that
/// overlap or touch are first merged, so that a timeline stays active from
/// one arc into the next; then the boundaries of all arcs are swept in
/// chronological order, rises before falls at equal epochs; a window opens
/// when the last timeline becomes active and closes when one becomes
/// inactive. No timeline gives no window.
pub fn find_arc_intersections(timelines: Vec<Vec<EventArc>>) -> (r: Vec<(i128, i128)>)
    ensures
        r@ == arc_intersections(merged_timelines(timelines_view(timelines@))),
{
    let merged = merge_timelines_exec(&timelines);
    sweep_intersections(merged)
}

/// The windows during which every timeline is inside one of its arcs, by a
/// sweep over the boundaries of all arcs.
fn sweep_intersections(timelines: Vec<Vec<EventArc>>) -> (r: Vec<(i128, i128)>)
    ensures
        r@ == arc_intersections(timelines_view(timelines@)),
{
    let ghost tls = timelines_view(timelines@);
    let num_timelines = timelines.len();
    if num_timelines == 0 {
        return Vec::new();
    }
    let mut points: Vec<EventPoint> = Vec::new();
    let mut list_id: usize = 0;
    while list_id < num_timelines
        invariant
            num_timelines == timelines.len(),
            tls == timelines_view(timelines@),
            list_id <= num_timelines,
            points@ == all_points(tls.take(list_id as int)),
        decreases num_timelines - list_id,
    {
        let arcs = &timelines[list_id];
        let ghost before = points@;
        let mut j: usize = 0;
        while j < arcs.len()
            invariant
                tls == timelines_view(timelines@),
                list_id < num_timelines == timelines.len(),
                arcs == timelines@[list_id as int],
                j <= arcs.len(),
                points@ == before + timeline_points(arcs@.take(j as int), list_id),
            decreases arcs.len() - j,
        {
            let arc = arcs[j];
            proof {
                assert(arcs@.take(j + 1).drop_last() =~= arcs@.take(j as int));
            }
            points.push(EventPoint { epoch: arc.rise, kind: EventEdge::Rising, list_id, arc_id: j });
            points.push(
                EventPoint { epoch: arc.fall, kind: EventEdge::Falling, list_id, arc_id: j },
            );
            proof {
                assert(points@ =~= before + timeline_points(arcs@.take(j + 1), list_id));
            }
            j = j + 1;
        }
        proof {
            assert(arcs@.take(arcs.len() as int) =~= arcs@);
            assert(tls.take(list_id + 1).drop_last() =~= tls.take(list_id as int));
            assert(tls[list_id as int] == arcs@);
        }
        list_id = list_id + 1;
    }
    proof {
        assert(tls.take(num_timelines as int) =~= tls);
    }
    let sorted = sort_points_exec(&points);
    let ghost n = num_timelines as nat;
    let mut active: Vec<bool> = Vec::new();
    let mut k: usize = 0;
    while k < num_timelines
        invariant
            k <= num_timelines,
            active@ =~= Seq::new(k as nat, |i: int| false),
        decreases num_timelines - k,
    {
        active.push(false);
        k = k + 1;
    }
    let mut intersection_start: Option<i128> = None;
    let mut result_windows: Vec<(i128, i128)> = Vec::new();
    let mut idx: usize = 0;
    while idx < sorted.len()
        invariant
            n == num_timelines,
            n == tls.len(),
            sorted@ == sort_points(all_points(tls)),
            idx <= sorted.len(),
            (active@, intersection_start, result_windows@) == sweep(sorted@, n, idx as nat),
            active@.len() == n,
        decreases sorted.len() - idx,
    {
        let point = sorted[idx];
        proof {
            assert(sorted@.contains(point));
            lemma_sort_points_contains(all_points(tls), point);
            lemma_all_points_ids(tls, point);
        }
        let was_fully_intersecting = all_active(&active);
        active.set(point.list_id, point.kind == EventEdge::Rising);
        let is_fully_intersecting = all_active(&active);
        if !was_fully_intersecting && is_fully_intersecting {
            intersection_start = Some(point.epoch);
        } else if was_fully_intersecting && !is_fully_intersecting {
            if let Some(start_epoch) = intersection_start {
                intersection_start = None;
                if point.epoch > start_epoch {
                    result_windows.push((start_epoch, point.epoch));
                }
            } else {
                intersection_start = None;
            }
        }
        idx = idx + 1;
    }
    result_windows
}

} // verus!
