use anise::domain::{domain, domain_and_gap, domains_of, SummaryRecord};

fn rec(id: i32, start: i128, end: i128) -> SummaryRecord {
    SummaryRecord { id, start, end }
}

#[test]
fn domain_is_earliest_start_latest_end() {
    let s = vec![rec(1, 50, 60), rec(1, 10, 20), rec(1, 30, 100)];
    assert_eq!(domain(&s), (10, 100));
}

#[test]
fn gaps_are_found_in_start_order() {
    assert_eq!(domain_and_gap(&vec![rec(1, 50, 60), rec(1, 10, 20)]), (10, 60, true));
    assert_eq!(domain_and_gap(&vec![rec(1, 15, 60), rec(1, 10, 20)]), (10, 60, false));
    // Touching summaries leave no gap.
    assert_eq!(domain_and_gap(&vec![rec(1, 0, 10), rec(1, 10, 20)]), (0, 20, false));
    // A long first summary covers later short ones.
    assert_eq!(domain_and_gap(&vec![rec(1, 0, 100), rec(1, 10, 20), rec(1, 50, 60)]), (0, 100, false));
    assert_eq!(domain_and_gap(&vec![rec(1, -5, 5)]), (-5, 5, false));
}

#[test]
fn domains_per_id() {
    let m = domains_of(&vec![rec(1, 5, 6), rec(2, 0, 1), rec(1, -1, 3)]);
    assert_eq!(m.len(), 2);
    assert_eq!(m[&1], (-1, 6));
    assert_eq!(m[&2], (0, 1));
    assert!(domains_of(&vec![]).is_empty());
}
