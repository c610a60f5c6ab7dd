use anise::event::{pair_crossings, sort_events_by_epoch, ConditionKind, EventArc, EventEdge, NeighborValue};
use anise::event::NeighborValue::{Above, Below, Level};
use anise::event_ops::find_arc_intersections;

#[test]
fn event_edges_from_neighbors() {
    assert_eq!(EventEdge::from_neighbors(Some(Above), Some(Below)), EventEdge::Falling);
    assert_eq!(EventEdge::from_neighbors(Some(Below), Some(Above)), EventEdge::Rising);
    assert_eq!(EventEdge::from_neighbors(Some(Above), Some(Above)), EventEdge::LocalMin);
    assert_eq!(EventEdge::from_neighbors(Some(Below), Some(Below)), EventEdge::LocalMax);
    assert_eq!(EventEdge::from_neighbors(Some(Level), Some(Above)), EventEdge::Unclear);
    assert_eq!(EventEdge::from_neighbors(Some(Above), None), EventEdge::Falling);
    assert_eq!(EventEdge::from_neighbors(Some(Below), None), EventEdge::Rising);
    assert_eq!(EventEdge::from_neighbors(None, Some(Above)), EventEdge::Rising);
    assert_eq!(EventEdge::from_neighbors(None, Some(Below)), EventEdge::Falling);
    assert_eq!(EventEdge::from_neighbors(None, None), EventEdge::Unclear);
}

#[test]
fn event_arc_bounds_and_duration() {
    let arc = EventArc { rise: 1_000, fall: 4_500 };
    assert_eq!(arc.start_epoch(), 1_000);
    assert_eq!(arc.end_epoch(), 4_500);
    assert_eq!(arc.duration(), 3_500);
}

#[test]
fn crossings_pair_into_arcs_from_outside() {
    let (arcs, open) = pair_crossings(None, vec![1, 2, 3, 4, 5]);
    assert_eq!(arcs, vec![(1, 2), (3, 4)]);
    assert_eq!(open, Some(5));
    let (arcs, open) = pair_crossings::<i32>(None, vec![]);
    assert!(arcs.is_empty());
    assert_eq!(open, None);
}

#[test]
fn crossings_pair_into_arcs_from_inside() {
    let (arcs, open) = pair_crossings(Some(0), vec![1, 2, 3]);
    assert_eq!(arcs, vec![(0, 1), (2, 3)]);
    assert_eq!(open, None);
}

#[test]
fn intersections_of_two_timelines() {
    let a = vec![EventArc { rise: 0, fall: 10 }, EventArc { rise: 20, fall: 30 }];
    let b = vec![EventArc { rise: 5, fall: 25 }];
    assert_eq!(find_arc_intersections(vec![a, b]), vec![(5, 10), (20, 25)]);
}

#[test]
fn intersections_edge_cases() {
    assert!(find_arc_intersections(vec![]).is_empty());
    let single = vec![EventArc { rise: 3, fall: 7 }];
    assert_eq!(find_arc_intersections(vec![single]), vec![(3, 7)]);
    // Touching arcs: the rise sorts before the fall at equal epochs, but the
    // window would be empty.
    let a = vec![EventArc { rise: 0, fall: 10 }];
    let b = vec![EventArc { rise: 10, fall: 20 }];
    assert!(find_arc_intersections(vec![a, b]).is_empty());
    // A timeline without arcs never intersects.
    let a = vec![EventArc { rise: 0, fall: 10 }];
    assert!(find_arc_intersections(vec![a, vec![]]).is_empty());
}

#[test]
fn intersection_windows_lie_within_arcs() {
    let a = vec![EventArc { rise: 0, fall: 100 }];
    let b = vec![EventArc { rise: 10, fall: 40 }, EventArc { rise: 60, fall: 150 }];
    let c = vec![EventArc { rise: 30, fall: 70 }];
    let w = find_arc_intersections(vec![a, b, c]);
    assert_eq!(w, vec![(30, 40), (60, 70)]);
    for (s, e) in w {
        assert!(s < e);
    }
}

#[test]
fn condition_kinds() {
    assert!(ConditionKind::Equals.is_individual());
    assert!(ConditionKind::Minimum.is_individual());
    assert!(ConditionKind::Maximum.is_individual());
    assert!(!ConditionKind::Between.is_individual());
    assert!(!ConditionKind::LessThan.is_individual());
    assert!(!ConditionKind::GreaterThan.is_individual());

    assert!(!ConditionKind::LessThan.holds_throughout(true));
    assert!(ConditionKind::LessThan.holds_throughout(false));
    assert!(ConditionKind::GreaterThan.holds_throughout(true));
    assert!(!ConditionKind::GreaterThan.holds_throughout(false));

    assert!(ConditionKind::Minimum.keeps_extremum(EventEdge::LocalMin));
    assert!(ConditionKind::Minimum.keeps_extremum(EventEdge::Rising));
    assert!(!ConditionKind::Minimum.keeps_extremum(EventEdge::LocalMax));
    assert!(ConditionKind::Maximum.keeps_extremum(EventEdge::Falling));
    assert!(!ConditionKind::Maximum.keeps_extremum(EventEdge::Unclear));
}

#[test]
fn touching_arcs_of_one_timeline_stay_active() {
    let a = vec![EventArc { rise: 0, fall: 10 }, EventArc { rise: 10, fall: 20 }];
    let b = vec![EventArc { rise: 5, fall: 15 }];
    assert_eq!(find_arc_intersections(vec![a, b]), vec![(5, 15)]);
}

#[test]
fn overlapping_arcs_of_one_timeline_merge() {
    let a = vec![EventArc { rise: 0, fall: 10 }, EventArc { rise: 5, fall: 20 }];
    let b = vec![EventArc { rise: 0, fall: 20 }];
    assert_eq!(find_arc_intersections(vec![a, b]), vec![(0, 20)]);
    let c = vec![EventArc { rise: 0, fall: 30 }, EventArc { rise: 5, fall: 8 }, EventArc { rise: 40, fall: 50 }];
    let d = vec![EventArc { rise: 20, fall: 45 }];
    assert_eq!(find_arc_intersections(vec![c, d]), vec![(20, 30), (40, 45)]);
}

#[test]
fn events_sort_by_epoch_stably() {
    let sorted = sort_events_by_epoch(vec![(30, 'a'), (10, 'b'), (30, 'c'), (-5, 'd'), (10, 'e')]);
    assert_eq!(sorted, vec![(-5, 'd'), (10, 'b'), (10, 'e'), (30, 'a'), (30, 'c')]);
    assert!(sort_events_by_epoch::<u8>(vec![]).is_empty());
}
