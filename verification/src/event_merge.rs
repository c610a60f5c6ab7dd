//! Merging the arcs of a timeline that overlap or touch, so that a timeline
//! holding one arc up to an epoch and the next from that same epoch is active
//! throughout; and the exact description of the intersection of timelines
//! that this gives.
use vstd::prelude::*;

use crate::event::EventArc;
use crate::event_complete::{arc_holds, arcs_disjoint, inside_all, lemma_arc_intersections_complete, timeline_holds, window_around};
use crate::event_ops::{
    arc_covers, arc_intersections, arcs_well_formed, lemma_arc_intersections_covered, timelines_fit, timelines_view,
};

verus! {

/// The arcs taken in order, each arc that starts no later than the end of
/// the last merged arc extending it, the others starting a new one.
pub open spec fn merge_arcs(s: Seq<EventArc>) -> Seq<EventArc>
    decreases s.len(),
{
    if s.len() == 0 {
        seq![]
    } else {
        let m = merge_arcs(s.drop_last());
        let x = s.last();
        if m.len() > 0 && x.rise <= m.last().fall {
            m.drop_last().push(
                EventArc { rise: m.last().rise, fall: if x.fall > m.last().fall { x.fall } else { m.last().fall } },
            )
        } else {
            m.push(x)
        }
    }
}

/// The timelines with the arcs of each merged.
pub open spec fn merged_timelines(tls: Seq<Seq<EventArc>>) -> Seq<Seq<EventArc>> {
    tls.map_values(|t: Seq<EventArc>| merge_arcs(t))
}

/// Every arc of the sequence rises no later than it falls.
pub open spec fn seq_well_formed(s: Seq<EventArc>) -> bool {
    forall|a: int| 0 <= a < s.len() ==> (#[trigger] s[a]).rise <= s[a].fall
}

/// The arcs of each timeline are in order of their rise.
pub open spec fn arcs_sorted(tls: Seq<Seq<EventArc>>) -> bool {
    forall|i: int, a: int, b: int|
        0 <= i < tls.len() && 0 <= a < b < tls[i].len() ==> #[trigger] tls[i][a].rise <= #[trigger] tls[i][b].rise
}

/// `t` is the rise or the fall of some arc.
pub open spec fn is_arc_bound(tls: Seq<Seq<EventArc>>, t: i128) -> bool {
    exists|i: int, a: int|
        0 <= i < tls.len() && 0 <= a < tls[i].len() && ((#[trigger] tls[i][a]).rise == t || tls[i][a].fall == t)
}

/// Some arc of the sequence holds `t`, its ends included.
pub open spec fn closed_holds(s: Seq<EventArc>, t: i128) -> bool {
    exists|a: int| 0 <= a < s.len() && (#[trigger] s[a]).rise <= t && t <= s[a].fall
}

/// Merged arcs are well formed, no more numerous than the arcs, and each
/// instant of a merged arc, its ends included, is held by an arc.
proof fn lemma_merge_sound(s: Seq<EventArc>)
    requires
        seq_well_formed(s),
    ensures
        seq_well_formed(merge_arcs(s)),
        merge_arcs(s).len() <= s.len(),
        forall|j: int, t: i128|
            0 <= j < merge_arcs(s).len() && (#[trigger] merge_arcs(s)[j]).rise <= t && t <= merge_arcs(s)[j].fall
                ==> #[trigger] closed_holds(s, t),
    decreases s.len(),
{
    if s.len() > 0 {
        let p = s.drop_last();
        assert forall|a: int| 0 <= a < p.len() implies (#[trigger] p[a]).rise <= p[a].fall by {
            assert(p[a] == s[a]);
        }
        lemma_merge_sound(p);
        let m = merge_arcs(p);
        let x = s.last();
        let r = merge_arcs(s);
        assert(x == s[s.len() - 1]);
        assert forall|t: i128| #[trigger] closed_holds(p, t) implies closed_holds(s, t) by {
            let a = choose|a: int| 0 <= a < p.len() && (#[trigger] p[a]).rise <= t && t <= p[a].fall;
            assert(s[a] == p[a]);
        }
        if m.len() > 0 && x.rise <= m.last().fall {
            let last = m.len() - 1;
            assert forall|j: int, t: i128|
                0 <= j < r.len() && (#[trigger] r[j]).rise <= t && t <= r[j].fall implies #[trigger] closed_holds(
                s,
                t,
            ) by {
                if j < last {
                    assert(r[j] == m[j]);
                    assert(closed_holds(p, t));
                } else if t <= m[last].fall {
                    assert(closed_holds(p, t));
                } else {
                    assert(s[s.len() - 1].rise <= t && t <= s[s.len() - 1].fall);
                }
            }
            assert forall|a: int| 0 <= a < r.len() implies (#[trigger] r[a]).rise <= r[a].fall by {
                if a < last {
                    assert(r[a] == m[a]);
                }
            }
        } else {
            assert forall|j: int, t: i128|
                0 <= j < r.len() && (#[trigger] r[j]).rise <= t && t <= r[j].fall implies #[trigger] closed_holds(
                s,
                t,
            ) by {
                if j < m.len() {
                    assert(r[j] == m[j]);
                    assert(closed_holds(p, t));
                } else {
                    assert(s[s.len() - 1].rise <= t && t <= s[s.len() - 1].fall);
                }
            }
            assert forall|a: int| 0 <= a < r.len() implies (#[trigger] r[a]).rise <= r[a].fall by {
                if a < m.len() {
                    assert(r[a] == m[a]);
                }
            }
        }
    }
}

/// Each merged arc rises with some arc.
proof fn lemma_merge_rises(s: Seq<EventArc>)
    ensures
        forall|j: int|
            0 <= j < merge_arcs(s).len() ==> exists|a: int|
                0 <= a < s.len() && (#[trigger] s[a]).rise == (#[trigger] merge_arcs(s)[j]).rise,
    decreases s.len(),
{
    if s.len() > 0 {
        let p = s.drop_last();
        lemma_merge_rises(p);
        let m = merge_arcs(p);
        let x = s.last();
        let n = s.len() - 1;
        assert(x == s[n]);
        let r = merge_arcs(s);
        assert forall|j: int| 0 <= j < r.len() implies exists|a: int|
            0 <= a < s.len() && (#[trigger] s[a]).rise == (#[trigger] r[j]).rise by {
            if j < m.len() {
                let b = choose|a: int| 0 <= a < p.len() && (#[trigger] p[a]).rise == m[j].rise;
                assert(s[b] == p[b]);
                assert(r[j].rise == m[j].rise);
            } else {
                assert(s[n].rise == r[j].rise);
            }
        }
    }
}

/// Of arcs in order of their rise, the last merged arc rises no later than
/// an arc that follows.
proof fn lemma_merge_last_rise(s: Seq<EventArc>, x: EventArc)
    requires
        forall|a: int| 0 <= a < s.len() ==> (#[trigger] s[a]).rise <= x.rise,
    ensures
        forall|j: int| 0 <= j < merge_arcs(s).len() ==> (#[trigger] merge_arcs(s)[j]).rise <= x.rise,
{
    lemma_merge_rises(s);
    assert forall|j: int| 0 <= j < merge_arcs(s).len() implies (#[trigger] merge_arcs(s)[j]).rise <= x.rise by {
        let a = choose|a: int| 0 <= a < s.len() && (#[trigger] s[a]).rise == merge_arcs(s)[j].rise;
    }
}

/// Arcs in order of their rise: its prefix is too, and each rises no later
/// than the last.
proof fn lemma_sorted_prefix(s: Seq<EventArc>)
    requires
        s.len() > 0,
        forall|a: int, b: int| 0 <= a < b < s.len() ==> #[trigger] s[a].rise <= #[trigger] s[b].rise,
    ensures
        forall|a: int, b: int| 0 <= a < b < s.drop_last().len() ==> #[trigger] s.drop_last()[a].rise
            <= #[trigger] s.drop_last()[b].rise,
        forall|a: int| 0 <= a < s.drop_last().len() ==> (#[trigger] s.drop_last()[a]).rise <= s.last().rise,
{
    let p = s.drop_last();
    assert forall|a: int, b: int| 0 <= a < b < p.len() implies #[trigger] p[a].rise <= #[trigger] p[b].rise by {
        assert(p[a] == s[a] && p[b] == s[b]);
    }
    assert forall|a: int| 0 <= a < p.len() implies (#[trigger] p[a]).rise <= s.last().rise by {
        assert(p[a] == s[a]);
        assert(s.last() == s[s.len() - 1]);
    }
}

/// Of arcs in order of their rise, merged arcs are apart: each falls before
/// the next rises.
proof fn lemma_merge_apart(s: Seq<EventArc>)
    requires
        seq_well_formed(s),
        forall|a: int, b: int| 0 <= a < b < s.len() ==> #[trigger] s[a].rise <= #[trigger] s[b].rise,
    ensures
        forall|j: int, k: int|
            0 <= j < k < merge_arcs(s).len() ==> #[trigger] merge_arcs(s)[j].fall < #[trigger] merge_arcs(s)[k].rise,
    decreases s.len(),
{
    if s.len() > 0 {
        let p = s.drop_last();
        assert forall|a: int| 0 <= a < p.len() implies (#[trigger] p[a]).rise <= p[a].fall by {
            assert(p[a] == s[a]);
        }
        lemma_sorted_prefix(s);
        lemma_merge_apart(p);
        lemma_merge_sound(p);
        let m = merge_arcs(p);
        let x = s.last();
        let r = merge_arcs(s);
        if m.len() > 0 && x.rise <= m.last().fall {
            let last = m.len() - 1;
            assert forall|j: int, k: int| 0 <= j < k < r.len() implies #[trigger] r[j].fall < #[trigger] r[k].rise by {
                assert(r[j] == m[j]);
                if k < last {
                    assert(r[k] == m[k]);
                }
            }
        } else {
            assert forall|j: int, k: int| 0 <= j < k < r.len() implies #[trigger] r[j].fall < #[trigger] r[k].rise by {
                assert(r[j] == m[j]);
                if k < m.len() {
                    assert(r[k] == m[k]);
                } else {
                    let last = m.len() - 1;
                    if j < last {
                        assert(m[j].fall < m[last].rise);
                    }
                    assert(m[last].rise <= m[last].fall);
                }
            }
        }
    }
}

/// Of arcs in order of their rise, each arc lies within one merged arc.
proof fn lemma_merge_contains(s: Seq<EventArc>)
    requires
        forall|a: int, b: int| 0 <= a < b < s.len() ==> #[trigger] s[a].rise <= #[trigger] s[b].rise,
    ensures
        forall|a: int|
            0 <= a < s.len() ==> exists|j: int|
                0 <= j < merge_arcs(s).len() && (#[trigger] merge_arcs(s)[j]).rise <= (#[trigger] s[a]).rise
                    && s[a].fall <= merge_arcs(s)[j].fall,
    decreases s.len(),
{
    if s.len() > 0 {
        let p = s.drop_last();
        lemma_sorted_prefix(s);
        lemma_merge_contains(p);
        let m = merge_arcs(p);
        let x = s.last();
        let n = s.len() - 1;
        assert(x == s[n]);
        let r = merge_arcs(s);
        lemma_merge_last_rise(p, x);
        if m.len() > 0 && x.rise <= m.last().fall {
            let last = m.len() - 1;
            assert forall|a: int| 0 <= a < s.len() implies exists|j: int|
                0 <= j < r.len() && (#[trigger] r[j]).rise <= (#[trigger] s[a]).rise && s[a].fall <= r[j].fall by {
                if a < n {
                    assert(s[a] == p[a]);
                    let j = choose|j: int|
                        0 <= j < m.len() && (#[trigger] m[j]).rise <= (#[trigger] p[a]).rise && p[a].fall <= m[j].fall;
                    if j < last {
                        assert(r[j] == m[j]);
                    } else {
                        assert(r[last].rise <= s[a].rise && s[a].fall <= r[last].fall);
                    }
                } else {
                    assert(r[last].rise <= s[a].rise && s[a].fall <= r[last].fall);
                }
            }
        } else {
            assert forall|a: int| 0 <= a < s.len() implies exists|j: int|
                0 <= j < r.len() && (#[trigger] r[j]).rise <= (#[trigger] s[a]).rise && s[a].fall <= r[j].fall by {
                if a < n {
                    assert(s[a] == p[a]);
                    let j = choose|j: int|
                        0 <= j < m.len() && (#[trigger] m[j]).rise <= (#[trigger] p[a]).rise && p[a].fall <= m[j].fall;
                    assert(r[j] == m[j]);
                } else {
                    assert(r[m.len() as int] == s[a]);
                }
            }
        }
    }
}

/// The merged timelines fit and their arcs are well formed.
proof fn lemma_merged_well_formed(tls: Seq<Seq<EventArc>>)
    requires
        timelines_fit(tls),
        arcs_well_formed(tls),
    ensures
        timelines_fit(merged_timelines(tls)),
        arcs_well_formed(merged_timelines(tls)),
{
    let m = merged_timelines(tls);
    assert forall|i: int| 0 <= i < m.len() implies (#[trigger] m[i]).len() <= usize::MAX by {
        assert(m[i] == merge_arcs(tls[i]));
        assert(seq_well_formed(tls[i]));
        lemma_merge_sound(tls[i]);
    }
    assert forall|i: int, a: int| 0 <= i < m.len() && 0 <= a < m[i].len() implies (#[trigger] m[i][a]).rise
        <= m[i][a].fall by {
        assert(m[i] == merge_arcs(tls[i]));
        assert(seq_well_formed(tls[i]));
        lemma_merge_sound(tls[i]);
    }
}

/// A window found holds only instants at which every timeline is inside one
/// of its arcs, the ends of the arcs included.
proof fn lemma_exact_sound(tls: Seq<Seq<EventArc>>, t: i128)
    requires
        tls.len() >= 1,
        timelines_fit(tls),
        arcs_well_formed(tls),
        !is_arc_bound(tls, t),
        window_around(arc_intersections(merged_timelines(tls)), t),
    ensures
        inside_all(tls, t),
{
    let m = merged_timelines(tls);
    lemma_merged_well_formed(tls);
    let w = arc_intersections(m);
    let j = choose|j: int| 0 <= j < w.len() && (#[trigger] w[j]).0 < t && t < w[j].1;
    lemma_arc_intersections_covered(m);
    let wj = w[j];
    assert forall|i: int| 0 <= i < tls.len() implies #[trigger] timeline_holds(tls, i, t) by {
        assert(arc_covers(m, i, wj));
        let b = choose|b: int| 0 <= b < m[i].len() && (#[trigger] m[i][b]).rise <= wj.0 && wj.1 <= m[i][b].fall;
        assert(m[i] == merge_arcs(tls[i]));
        assert(seq_well_formed(tls[i]));
        lemma_merge_sound(tls[i]);
        assert(closed_holds(tls[i], t));
        let a = choose|a: int| 0 <= a < tls[i].len() && (#[trigger] tls[i][a]).rise <= t && t <= tls[i][a].fall;
        if tls[i][a].rise == t || tls[i][a].fall == t {
            assert(is_arc_bound(tls, t));
        }
        assert(arc_holds(tls, i, a, t));
    }
}

/// Where the arcs are in order of their rise, an instant at which every
/// timeline is inside one of its arcs lies inside a window found.
proof fn lemma_exact_complete(tls: Seq<Seq<EventArc>>, t: i128)
    requires
        tls.len() >= 1,
        timelines_fit(tls),
        arcs_well_formed(tls),
        arcs_sorted(tls),
        inside_all(tls, t),
    ensures
        window_around(arc_intersections(merged_timelines(tls)), t),
{
    let m = merged_timelines(tls);
    lemma_merged_well_formed(tls);
    assert forall|i: int| 0 <= i < m.len() implies #[trigger] timeline_holds(m, i, t) by {
        assert(m[i] == merge_arcs(tls[i]));
        assert forall|a: int, b: int| 0 <= a < b < tls[i].len() implies #[trigger] tls[i][a].rise
            <= #[trigger] tls[i][b].rise by {
            assert(tls[i][a].rise <= tls[i][b].rise);
        }
        lemma_merge_contains(tls[i]);
        assert(timeline_holds(tls, i, t));
        let a = choose|a: int| #[trigger] arc_holds(tls, i, a, t);
        let j = choose|j: int|
            0 <= j < m[i].len() && (#[trigger] m[i][j]).rise <= (#[trigger] tls[i][a]).rise && tls[i][a].fall
                <= m[i][j].fall;
        assert(arc_holds(m, i, j, t));
    }
    assert forall|i: int, a: int, b: int|
        0 <= i < m.len() && 0 <= a < m[i].len() && 0 <= b < m[i].len() && a != b implies #[trigger] m[i][a].fall
        < #[trigger] m[i][b].rise || m[i][b].fall < m[i][a].rise by {
        assert(m[i] == merge_arcs(tls[i]));
        assert forall|x: int, y: int| 0 <= x < y < tls[i].len() implies #[trigger] tls[i][x].rise
            <= #[trigger] tls[i][y].rise by {
            assert(tls[i][x].rise <= tls[i][y].rise);
        }
        assert(seq_well_formed(tls[i]));
        lemma_merge_apart(tls[i]);
    }
    assert(arcs_disjoint(m));
    assert(inside_all(m, t));
    lemma_arc_intersections_complete(m, t);
}

/// The intersection of timelines, described instant by instant: at an
/// instant that is no arc's rise or fall, a window found holds the instant
/// exactly when every timeline is inside one of its arcs. Holding the instant
/// implies that every timeline is inside an arc whatever the order of the
/// arcs; the converse asks the arcs of each timeline to be in order of their
/// rise, and holds there whether arcs overlap, touch or are apart. With the
/// windows apart from each other, this makes each window maximal.
pub proof fn lemma_find_arc_intersections_exact(tls: Seq<Seq<EventArc>>, t: i128)
    requires
        tls.len() >= 1,
        timelines_fit(tls),
        arcs_well_formed(tls),
        !is_arc_bound(tls, t),
    ensures
        window_around(arc_intersections(merged_timelines(tls)), t) ==> inside_all(tls, t),
        arcs_sorted(tls) ==> (inside_all(tls, t) ==> window_around(arc_intersections(merged_timelines(tls)), t)),
{
    if window_around(arc_intersections(merged_timelines(tls)), t) {
        lemma_exact_sound(tls, t);
    }
    if arcs_sorted(tls) && inside_all(tls, t) {
        lemma_exact_complete(tls, t);
    }
}

/// Merges the arcs of a timeline that overlap or touch, in order.
pub fn merge_arcs_exec(arcs: &Vec<EventArc>) -> (r: Vec<EventArc>)
    ensures
        r@ == merge_arcs(arcs@),
{
    let mut out: Vec<EventArc> = Vec::new();
    let mut i: usize = 0;
    while i < arcs.len()
        invariant
            i <= arcs.len(),
            out@ == merge_arcs(arcs@.take(i as int)),
        decreases arcs.len() - i,
    {
        let x = arcs[i];
        proof {
            assert(arcs@.take(i + 1).drop_last() =~= arcs@.take(i as int));
            assert(arcs@.take(i + 1).last() == x);
        }
        let n = out.len();
        if n > 0 && x.rise <= out[n - 1].fall {
            let last = out[n - 1];
            let fall = if x.fall > last.fall {
                x.fall
            } else {
                last.fall
            };
            let ghost before = out@;
            out.set(n - 1, EventArc { rise: last.rise, fall });
            assert(out@ =~= before.drop_last().push(EventArc { rise: last.rise, fall }));
        } else {
            out.push(x);
        }
        i = i + 1;
    }
    assert(arcs@.take(arcs.len() as int) =~= arcs@);
    out
}

/// Merges the arcs of every timeline.
pub fn merge_timelines_exec(timelines: &Vec<Vec<EventArc>>) -> (r: Vec<Vec<EventArc>>)
    ensures
        timelines_view(r@) == merged_timelines(timelines_view(timelines@)),
{
    let mut out: Vec<Vec<EventArc>> = Vec::new();
    let mut i: usize = 0;
    while i < timelines.len()
        invariant
            i <= timelines.len(),
            timelines_view(out@) == merged_timelines(timelines_view(timelines@)).take(i as int),
        decreases timelines.len() - i,
    {
        let merged = merge_arcs_exec(&timelines[i]);
        let ghost before = out@;
        out.push(merged);
        assert(timelines_view(out@) =~= timelines_view(before).push(merged@));
        assert(merged_timelines(timelines_view(timelines@)).take(i + 1) =~= merged_timelines(
            timelines_view(timelines@),
        ).take(i as int).push(merge_arcs(timelines@[i as int]@)));
        i = i + 1;
    }
    assert(merged_timelines(timelines_view(timelines@)).take(timelines.len() as int) =~= merged_timelines(
        timelines_view(timelines@),
    ));
    out
}

} // verus!
