//! Completeness of the arc intersection: an instant at which every timeline
//! is strictly inside one of its arcs lies strictly inside a window found,
//! where the arcs of each timeline neither overlap nor touch.
use vstd::prelude::*;

use crate::event::{EventArc, EventEdge};
use crate::event_ops::{
    all_points, all_true, arc_intersections, arcs_well_formed, fall_point, last_of, lemma_all_points_has,
    lemma_all_points_member, lemma_last_of, lemma_sort_points_contains, lemma_sorted_ids,
    lemma_sweep_invariant, lemma_timeline_points_has, lemma_timeline_points_ids,
    lemma_timeline_points_member, point_lt, rise_point, sweep, swept_points,
    timeline_points, timelines_fit, EventPoint,
};

verus! {

/// Within each timeline, two different arcs neither overlap nor touch.
pub open spec fn arcs_disjoint(tls: Seq<Seq<EventArc>>) -> bool {
    forall|i: int, a: int, b: int|
        0 <= i < tls.len() && 0 <= a < tls[i].len() && 0 <= b < tls[i].len() && a != b ==> #[trigger] tls[i][a].fall
            < #[trigger] tls[i][b].rise || tls[i][b].fall < tls[i][a].rise
}

/// Arc `a` of timeline `i` holds `t` strictly inside.
pub open spec fn arc_holds(tls: Seq<Seq<EventArc>>, i: int, a: int, t: i128) -> bool {
    0 <= a < tls[i].len() && tls[i][a].rise < t && t < tls[i][a].fall
}

/// At `t`, timeline `i` is strictly inside one of its arcs.
pub open spec fn timeline_holds(tls: Seq<Seq<EventArc>>, i: int, t: i128) -> bool {
    exists|a: int| #[trigger] arc_holds(tls, i, a, t)
}

/// At `t`, every timeline is strictly inside one of its arcs.
pub open spec fn inside_all(tls: Seq<Seq<EventArc>>, t: i128) -> bool {
    forall|i: int| 0 <= i < tls.len() ==> #[trigger] timeline_holds(tls, i, t)
}

/// Some window holds `t` strictly inside.
pub open spec fn window_around(w: Seq<(i128, i128)>, t: i128) -> bool {
    exists|j: int| 0 <= j < w.len() && (#[trigger] w[j]).0 < t && t < w[j].1
}

/// Each sorted point is the rise or the fall of an arc of its timeline.
proof fn lemma_point_origin(tls: Seq<Seq<EventArc>>, m: int)
    requires
        timelines_fit(tls),
        0 <= m < swept_points(tls).len(),
    ensures
        exists|a: int|
            0 <= a < tls[swept_points(tls)[m].list_id as int].len() && (swept_points(tls)[m] == rise_point(
                #[trigger] tls[swept_points(tls)[m].list_id as int][a],
                swept_points(tls)[m].list_id,
                a as usize,
            ) || swept_points(tls)[m] == fall_point(
                tls[swept_points(tls)[m].list_id as int][a],
                swept_points(tls)[m].list_id,
                a as usize,
            )),
        swept_points(tls)[m].list_id < tls.len(),
{
    let pts = swept_points(tls);
    let p = pts[m];
    assert(pts.contains(p));
    lemma_sort_points_contains(all_points(tls), p);
    lemma_all_points_member(tls, p);
    let i = choose|i: int| 0 <= i < tls.len() && timeline_points(#[trigger] tls[i], i as usize).contains(p);
    lemma_timeline_points_ids(tls[i], i as usize, p);
    lemma_timeline_points_member(tls[i], i as usize, p);
}

/// The index of the rise and of the fall of an arc among the sorted points.
proof fn lemma_arc_points(tls: Seq<Seq<EventArc>>, i: int, a: int)
    requires
        timelines_fit(tls),
        0 <= i < tls.len(),
        0 <= a < tls[i].len(),
    ensures
        exists|q: int| 0 <= q < swept_points(tls).len() && #[trigger] swept_points(tls)[q] == rise_point(tls[i][a], i as usize, a as usize),
        exists|q: int| 0 <= q < swept_points(tls).len() && #[trigger] swept_points(tls)[q] == fall_point(tls[i][a], i as usize, a as usize),
{
    let r = rise_point(tls[i][a], i as usize, a as usize);
    let f = fall_point(tls[i][a], i as usize, a as usize);
    lemma_timeline_points_has(tls[i], i as usize, a);
    lemma_all_points_has(tls, i, r);
    lemma_all_points_has(tls, i, f);
    lemma_sort_points_contains(all_points(tls), r);
    lemma_sort_points_contains(all_points(tls), f);
    let pts = swept_points(tls);
    let qr = choose|q: int| 0 <= q < pts.len() && pts[q] == r;
    assert(pts[qr] == r);
    let qf = choose|q: int| 0 <= q < pts.len() && pts[q] == f;
    assert(pts[qf] == f);
}

/// No boundary of any arc falls at an instant held by every timeline.
proof fn lemma_no_point_at(tls: Seq<Seq<EventArc>>, t: i128, m: int)
    requires
        timelines_fit(tls),
        arcs_well_formed(tls),
        arcs_disjoint(tls),
        inside_all(tls, t),
        0 <= m < swept_points(tls).len(),
    ensures
        swept_points(tls)[m].epoch != t,
{
    let pts = swept_points(tls);
    lemma_point_origin(tls, m);
    let i = pts[m].list_id as int;
    let b = choose|b: int|
        0 <= b < tls[i].len() && (pts[m] == rise_point(#[trigger] tls[i][b], i as usize, b as usize) || pts[m]
            == fall_point(tls[i][b], i as usize, b as usize));
    assert(timeline_holds(tls, i, t));
    let a = choose|a: int| #[trigger] arc_holds(tls, i, a, t);
    assert(tls[i][b].rise <= tls[i][b].fall);
    if a != b {
        assert(tls[i][a].fall < tls[i][b].rise || tls[i][b].fall < tls[i][a].rise);
    }
}

/// The points before index `k` are earlier than `t`, the others later.
pub open spec fn split_at(pts: Seq<EventPoint>, t: i128, k: int) -> bool {
    &&& 0 <= k <= pts.len()
    &&& forall|m: int| 0 <= m < k ==> (#[trigger] pts[m]).epoch < t
    &&& forall|m: int| k <= m < pts.len() ==> (#[trigger] pts[m]).epoch > t
}

/// The sorted points split at `t`: those before some index are earlier, the
/// others later.
proof fn lemma_split_at(pts: Seq<EventPoint>, t: i128)
    requires
        forall|i: int, j: int| 0 <= i < j < pts.len() ==> !point_lt(#[trigger] pts[j], #[trigger] pts[i]),
        forall|m: int| 0 <= m < pts.len() ==> (#[trigger] pts[m]).epoch != t,
    ensures
        exists|k: int| #[trigger] split_at(pts, t, k),
    decreases pts.len(),
{
    if pts.len() == 0 {
        assert(split_at(pts, t, 0));
    } else {
        let q = pts.drop_last();
        assert forall|i: int, j: int| 0 <= i < j < q.len() implies !point_lt(#[trigger] q[j], #[trigger] q[i]) by {
            assert(q[i] == pts[i] && q[j] == pts[j]);
        }
        assert forall|m: int| 0 <= m < q.len() implies (#[trigger] q[m]).epoch != t by {
            assert(q[m] == pts[m]);
        }
        lemma_split_at(q, t);
        let k = choose|k: int| #[trigger] split_at(q, t, k);
        let last = pts.len() - 1;
        if pts[last].epoch < t {
            assert forall|m: int| 0 <= m < pts.len() implies (#[trigger] pts[m]).epoch < t by {
                if m < last {
                    assert(!point_lt(pts[last], pts[m]));
                }
            }
            assert(split_at(pts, t, pts.len() as int));
        } else {
            assert forall|m: int| 0 <= m < k implies (#[trigger] pts[m]).epoch < t by {
                assert(pts[m] == q[m]);
            }
            assert forall|m: int| k <= m < pts.len() implies (#[trigger] pts[m]).epoch > t by {
                if m < last {
                    assert(pts[m] == q[m]);
                }
            }
            assert(split_at(pts, t, k));
        }
    }
}

/// After the first `k` points, a timeline is active exactly when the last of
/// its points among them is a rise.
proof fn lemma_active_state(pts: Seq<EventPoint>, n: nat, k: nat, i: int)
    requires
        forall|i: int, j: int| 0 <= i < j < pts.len() ==> !point_lt(#[trigger] pts[j], #[trigger] pts[i]),
        n >= 1,
        forall|m: int| 0 <= m < pts.len() ==> (#[trigger] pts[m]).list_id < n,
        k <= pts.len(),
        0 <= i < n,
    ensures
        sweep(pts, n, k).0[i] == (last_of(pts, k, i) >= 0 && pts[last_of(pts, k, i)].kind == EventEdge::Rising),
    decreases k,
{
    if k > 0 {
        lemma_active_state(pts, n, (k - 1) as nat, i);
        lemma_sweep_invariant(pts, n, (k - 1) as nat);
    }
}

/// The start of the current intersection is the epoch of a point already swept.
proof fn lemma_start_is_point(pts: Seq<EventPoint>, n: nat, k: nat)
    requires
        k <= pts.len(),
    ensures
        sweep(pts, n, k).1 matches Some(s) ==> exists|q: int| 0 <= q < k && (#[trigger] pts[q]).epoch == s,
    decreases k,
{
    if k > 0 {
        lemma_start_is_point(pts, n, (k - 1) as nat);
    }
}

/// Windows once found stay found.
proof fn lemma_window_kept(pts: Seq<EventPoint>, n: nat, k: nat, k2: nat, t: i128)
    requires
        k <= k2 <= pts.len(),
        window_around(sweep(pts, n, k).2, t),
    ensures
        window_around(sweep(pts, n, k2).2, t),
    decreases k2 - k,
{
    if k < k2 {
        lemma_window_kept(pts, n, k, (k2 - 1) as nat, t);
        let w = sweep(pts, n, (k2 - 1) as nat).2;
        let j = choose|j: int| 0 <= j < w.len() && (#[trigger] w[j]).0 < t && t < w[j].1;
        let w2 = sweep(pts, n, k2).2;
        assert(w2 == w || w2 == w.push(w2.last()));
        assert(w2[j] == w[j]);
    }
}

/// Completeness of the intersection: where the arcs of each timeline neither
/// overlap nor touch, every instant at which each timeline is strictly inside
/// one of its arcs lies strictly inside one of the windows found.
pub proof fn lemma_arc_intersections_complete(tls: Seq<Seq<EventArc>>, t: i128)
    requires
        tls.len() >= 1,
        timelines_fit(tls),
        arcs_well_formed(tls),
        arcs_disjoint(tls),
        inside_all(tls, t),
    ensures
        window_around(arc_intersections(tls), t),
{
    let pts = swept_points(tls);
    let n = tls.len();
    lemma_sorted_ids(tls);
    assert forall|m: int| 0 <= m < pts.len() implies (#[trigger] pts[m]).epoch != t by {
        lemma_no_point_at(tls, t, m);
    }
    lemma_split_at(pts, t);
    let k = choose|k: int| #[trigger] split_at(pts, t, k);
    lemma_sweep_invariant(pts, n, k as nat);
    // After the points before `t`, every timeline is active.
    assert forall|i: int| 0 <= i < n implies #[trigger] sweep(pts, n, k as nat).0[i] by {
        assert(timeline_holds(tls, i, t));
        let a = choose|a: int| #[trigger] arc_holds(tls, i, a, t);
        lemma_arc_points(tls, i, a);
        let qr = choose|q: int| 0 <= q < pts.len() && #[trigger] pts[q] == rise_point(tls[i][a], i as usize, a as usize);
        lemma_last_of(pts, k as nat, i);
        let m = last_of(pts, k as nat, i);
        assert(qr < k) by {
            if qr >= k {
                assert(pts[qr].epoch > t);
            }
        }
        assert(m >= qr);
        lemma_point_origin(tls, m);
        let b = choose|b: int|
            0 <= b < tls[i].len() && (pts[m] == rise_point(#[trigger] tls[i][b], i as usize, b as usize) || pts[m]
                == fall_point(tls[i][b], i as usize, b as usize));
        assert(pts[m].epoch < t);
        if m > qr {
            assert(!point_lt(pts[m], pts[qr]));
        }
        assert(tls[i][b].rise <= tls[i][b].fall);
        if a != b {
            assert(tls[i][a].fall < tls[i][b].rise || tls[i][b].fall < tls[i][a].rise);
        }
        assert(pts[m].kind == EventEdge::Rising);
        lemma_active_state(pts, n, k as nat, i);
    }
    lemma_sweep_invariant(pts, n, k as nat);
    assert(all_true(sweep(pts, n, k as nat).0));
    let s = sweep(pts, n, k as nat).1.unwrap();
    lemma_start_is_point(pts, n, k as nat);
    assert(s < t);
    // The fall of the arc of the first timeline ends the intersection.
    assert(timeline_holds(tls, 0, t));
    let a0 = choose|a: int| #[trigger] arc_holds(tls, 0, a, t);
    lemma_arc_points(tls, 0, a0);
    let qf = choose|q: int| 0 <= q < pts.len() && #[trigger] pts[q] == fall_point(tls[0][a0], 0usize, a0 as usize);
    assert(qf >= k) by {
        if qf < k {
            assert(pts[qf].epoch < t);
        }
    }
    lemma_intersection_until(pts, n, k as nat, s, t, (qf + 1) as nat);
    lemma_last_of(pts, (qf + 1) as nat, 0);
    lemma_active_state(pts, n, (qf + 1) as nat, 0);
    lemma_sweep_invariant(pts, n, (qf + 1) as nat);
    assert(!sweep(pts, n, (qf + 1) as nat).0[0]);
    assert(!all_true(sweep(pts, n, (qf + 1) as nat).0));
    lemma_window_kept(pts, n, (qf + 1) as nat, pts.len(), t);
}

/// From the first point after `t` on, the intersection that started at `s`
/// either goes on or has been closed into a window around `t`.
proof fn lemma_intersection_until(pts: Seq<EventPoint>, n: nat, k: nat, s: i128, t: i128, j: nat)
    requires
        k <= j <= pts.len(),
        all_true(sweep(pts, n, k).0),
        sweep(pts, n, k).1 == Some(s),
        s < t,
        forall|m: int| k <= m < pts.len() ==> (#[trigger] pts[m]).epoch > t,
    ensures
        (all_true(sweep(pts, n, j).0) && sweep(pts, n, j).1 == Some(s)) || window_around(sweep(pts, n, j).2, t),
    decreases j - k,
{
    if j > k {
        lemma_intersection_until(pts, n, k, s, t, (j - 1) as nat);
        let prev = sweep(pts, n, (j - 1) as nat);
        let st = sweep(pts, n, j);
        let p = pts[j - 1];
        if window_around(prev.2, t) {
            let w = prev.2;
            let x = choose|x: int| 0 <= x < w.len() && (#[trigger] w[x]).0 < t && t < w[x].1;
            assert(st.2 == w || st.2 == w.push(st.2.last()));
            assert(st.2[x] == w[x]);
        } else if !all_true(st.0) {
            assert(p.epoch > t);
            assert(st.2 == prev.2.push((s, p.epoch)));
            assert(st.2[prev.2.len() as int] == (s, p.epoch));
        }
    }
}

} // verus!
