//! Validity domains of the summaries of loaded kernels: over which epochs an
//! object has data, and whether that coverage has gaps.
use std::collections::HashMap;
use vstd::prelude::*;

verus! {

broadcast use vstd::std_specs::hash::group_hash_axioms;

/// What the domain computations read of a kernel summary: the NAIF ID it
/// describes and the epochs (TAI nanoseconds) over which it holds data.
#[derive(Copy, Clone, PartialEq, Eq, Structural, Debug)]
pub struct SummaryRecord {
    /// NAIF ID of the object of the summary.
    pub id: i32,
    /// First epoch with data.
    pub start: i128,
    /// Last epoch with data.
    pub end: i128,
}

/// The smallest start epoch of a non-empty sequence of summaries.
pub open spec fn min_start(s: Seq<SummaryRecord>) -> i128
    decreases s.len(),
{
    if s.len() <= 1 {
        s[0].start
    } else {
        let m = min_start(s.drop_last());
        if s.last().start < m {
            s.last().start
        } else {
            m
        }
    }
}

/// The largest end epoch of a non-empty sequence of summaries.
pub open spec fn max_end(s: Seq<SummaryRecord>) -> i128
    decreases s.len(),
{
    if s.len() <= 1 {
        s[0].end
    } else {
        let m = max_end(s.drop_last());
        if s.last().end > m {
            s.last().end
        } else {
            m
        }
    }
}

/// Inserts `x` into `s` after every summary that does not start after `x`.
pub open spec fn insert_by_start(s: Seq<SummaryRecord>, x: SummaryRecord) -> Seq<SummaryRecord>
    decreases s.len(),
{
    if s.len() == 0 {
        seq![x]
    } else if x.start < s.last().start {
        insert_by_start(s.drop_last(), x).push(s.last())
    } else {
        s.push(x)
    }
}

/// The summaries ordered by start epoch, summaries with the same start keeping
/// their order (a stable sort by start).
pub open spec fn sort_by_start(s: Seq<SummaryRecord>) -> Seq<SummaryRecord>
    decreases s.len(),
{
    if s.len() == 0 {
        seq![]
    } else {
        insert_by_start(sort_by_start(s.drop_last()), s.last())
    }
}

/// Whether, in the given order, some summary starts after every earlier
/// summary has ended.
pub open spec fn has_gap_in_order(s: Seq<SummaryRecord>) -> bool {
    exists|p: int| 1 <= p < s.len() && #[trigger] s[p].start > max_end(s.take(p))
}

/// Start, end and gap of the coverage of non-empty summaries: the earliest
/// start, the latest end, and whether, taking the summaries by start epoch,
/// one starts after all earlier ones have ended.
pub open spec fn spec_domain_and_gap(s: Seq<SummaryRecord>) -> (i128, i128, bool) {
    (min_start(s), max_end(s), has_gap_in_order(sort_by_start(s)))
}

proof fn lemma_insert_by_start_at(s: Seq<SummaryRecord>, x: SummaryRecord, j: int)
    requires
        0 <= j <= s.len(),
        forall|m: int| j <= m < s.len() ==> x.start < #[trigger] s[m].start,
        j > 0 ==> !(x.start < s[j - 1].start),
    ensures
        insert_by_start(s, x) == s.take(j) + seq![x] + s.skip(j),
    decreases s.len(),
{
    if s.len() == 0 {
        assert(s.take(j) + seq![x] + s.skip(j) =~= seq![x]);
    } else if x.start < s.last().start {
        let t = s.drop_last();
        assert forall|m: int| j <= m < t.len() implies x.start < #[trigger] t[m].start by {
            assert(t[m] == s[m]);
        }
        if j > 0 {
            assert(t[j - 1] == s[j - 1]);
        }
        lemma_insert_by_start_at(t, x, j);
        assert(insert_by_start(s, x) =~= s.take(j) + seq![x] + s.skip(j));
    } else {
        assert(s.take(j) + seq![x] + s.skip(j) =~= s.push(x));
    }
}

fn insert_by_start_exec(v: &mut Vec<SummaryRecord>, x: SummaryRecord)
    ensures
        final(v)@ == insert_by_start(old(v)@, x),
{
    let ghost s = v@;
    v.push(x);
    let mut i: usize = v.len() - 1;
    while i > 0 && x.start < v[i - 1].start
        invariant
            0 <= i < v.len(),
            v.len() == s.len() + 1,
            v@ =~= s.take(i as int) + seq![x] + s.skip(i as int),
            forall|m: int| i <= m < s.len() ==> x.start < #[trigger] s[m].start,
        decreases i,
    {
        let prev = v[i - 1];
        v.set(i, prev);
        v.set(i - 1, x);
        i = i - 1;
    }
    proof {
        if i > 0 {
            assert(v@[i - 1] == s[i - 1]);
        }
        lemma_insert_by_start_at(s, x, i as int);
    }
}

/// Sorts summaries by start epoch, keeping the order of equal starts.
fn sort_by_start_exec(s: &Vec<SummaryRecord>) -> (r: Vec<SummaryRecord>)
    ensures
        r@ == sort_by_start(s@),
{
    let mut out: Vec<SummaryRecord> = Vec::new();
    let mut i: usize = 0;
    while i < s.len()
        invariant
            i <= s.len(),
            out@ == sort_by_start(s@.take(i as int)),
        decreases s.len() - i,
    {
        proof {
            assert(s@.take(i + 1).drop_last() =~= s@.take(i as int));
        }
        insert_by_start_exec(&mut out, s[i]);
        i = i + 1;
    }
    assert(s@.take(s.len() as int) =~= s@);
    out
}

/// The earliest start and the latest end of non-empty summaries.
fn min_start_max_end(s: &Vec<SummaryRecord>) -> (r: (i128, i128))
    requires
        s.len() > 0,
    ensures
        r == (min_start(s@), max_end(s@)),
{
    let mut lo = s[0].start;
    let mut hi = s[0].end;
    let mut i: usize = 1;
    while i < s.len()
        invariant
            1 <= i <= s.len(),
            lo == min_start(s@.take(i as int)),
            hi == max_end(s@.take(i as int)),
        decreases s.len() - i,
    {
        proof {
            assert(s@.take(i + 1).drop_last() =~= s@.take(i as int));
        }
        if s[i].start < lo {
            lo = s[i].start;
        }
        if s[i].end > hi {
            hi = s[i].end;
        }
        i = i + 1;
    }
    assert(s@.take(s.len() as int) =~= s@);
    (lo, hi)
}

proof fn lemma_sort_by_start_len(s: Seq<SummaryRecord>)
    ensures
        sort_by_start(s).len() == s.len(),
    decreases s.len(),
{
    if s.len() > 0 {
        lemma_sort_by_start_len(s.drop_last());
        lemma_insert_by_start_len(sort_by_start(s.drop_last()), s.last());
    }
}

proof fn lemma_insert_by_start_len(s: Seq<SummaryRecord>, x: SummaryRecord)
    ensures
        insert_by_start(s, x).len() == s.len() + 1,
    decreases s.len(),
{
    if s.len() > 0 && x.start < s.last().start {
        lemma_insert_by_start_len(s.drop_last(), x);
    }
}

/// The domain of the summaries (earliest start, latest end) and whether their
/// coverage has a gap: the summaries are sorted by start epoch, and a gap is a
/// summary that starts after every earlier one has ended.
pub fn domain_and_gap(summaries: &Vec<SummaryRecord>) -> (r: (i128, i128, bool))
    requires
        summaries.len() > 0,
    ensures
        r == spec_domain_and_gap(summaries@),
{
    let (start, end) = min_start_max_end(summaries);
    let sorted = sort_by_start_exec(summaries);
    proof {
        lemma_sort_by_start_len(summaries@);
    }
    let mut has_gap = false;
    let mut max_covered = sorted[0].end;
    let mut i: usize = 1;
    while i < sorted.len() && !has_gap
        invariant
            sorted@ == sort_by_start(summaries@),
            sorted.len() > 0,
            1 <= i <= sorted.len(),
            max_covered == max_end(sorted@.take(i as int)),
            forall|p: int| 1 <= p < i ==> !(#[trigger] sorted@[p].start > max_end(sorted@.take(p))),
            has_gap ==> i < sorted.len() && sorted@[i as int].start > max_end(sorted@.take(i as int)),
        decreases sorted.len() - i + (if has_gap { 0int } else { 1int }),
    {
        if sorted[i].start > max_covered {
            has_gap = true;
        } else {
            proof {
                assert(sorted@.take(i + 1).drop_last() =~= sorted@.take(i as int));
            }
            if sorted[i].end > max_covered {
                max_covered = sorted[i].end;
            }
            i = i + 1;
        }
    }
    (start, end, has_gap)
}

/// The domain of non-empty summaries: the earliest start and the latest end.
pub fn domain(summaries: &Vec<SummaryRecord>) -> (r: (i128, i128))
    requires
        summaries.len() > 0,
    ensures
        r == (min_start(summaries@), max_end(summaries@)),
{
    min_start_max_end(summaries)
}

/// The summaries of `s` that describe `id`, in order.
pub open spec fn with_id(s: Seq<SummaryRecord>, id: i32) -> Seq<SummaryRecord>
    decreases s.len(),
{
    if s.len() == 0 {
        seq![]
    } else if s.last().id == id {
        with_id(s.drop_last(), id).push(s.last())
    } else {
        with_id(s.drop_last(), id)
    }
}

/// The domain of each ID described by the summaries: the earliest start and
/// latest end over the summaries of that ID.
pub open spec fn domain_map(s: Seq<SummaryRecord>) -> Map<i32, (i128, i128)> {
    Map::new(
        |id: i32| with_id(s, id).len() > 0,
        |id: i32| (min_start(with_id(s, id)), max_end(with_id(s, id))),
    )
}

proof fn lemma_domain_map_push(s: Seq<SummaryRecord>, x: SummaryRecord)
    ensures
        domain_map(s.push(x)) == domain_map(s).insert(
            x.id,
            if domain_map(s).contains_key(x.id) {
                let cur = domain_map(s)[x.id];
                (
                    if x.start < cur.0 {
                        x.start
                    } else {
                        cur.0
                    },
                    if x.end > cur.1 {
                        x.end
                    } else {
                        cur.1
                    },
                )
            } else {
                (x.start, x.end)
            },
        ),
{
    let t = s.push(x);
    assert(t.drop_last() =~= s);
    assert forall|id: i32| #[trigger] with_id(t, id) == if id == x.id {
        with_id(s, id).push(x)
    } else {
        with_id(s, id)
    } by {}
    assert(with_id(t, x.id).drop_last() =~= with_id(s, x.id));
    assert(domain_map(t) =~= domain_map(s).insert(
        x.id,
        if domain_map(s).contains_key(x.id) {
            let cur = domain_map(s)[x.id];
            (
                if x.start < cur.0 {
                    x.start
                } else {
                    cur.0
                },
                if x.end > cur.1 {
                    x.end
                } else {
                    cur.1
                },
            )
        } else {
            (x.start, x.end)
        },
    ));
}

/// The domain of each ID described by the summaries, folded in order.
pub fn domains_of(summaries: &Vec<SummaryRecord>) -> (r: HashMap<i32, (i128, i128)>)
    ensures
        r@ == domain_map(summaries@),
{
    let mut domains: HashMap<i32, (i128, i128)> = HashMap::new();
    let mut i: usize = 0;
    assert(domain_map(summaries@.take(0)) =~= Map::<i32, (i128, i128)>::empty());
    while i < summaries.len()
        invariant
            i <= summaries.len(),
            domains@ == domain_map(summaries@.take(i as int)),
        decreases summaries.len() - i,
    {
        let summary = summaries[i];
        proof {
            assert(summaries@.take(i + 1) =~= summaries@.take(i as int).push(summary));
            lemma_domain_map_push(summaries@.take(i as int), summary);
        }
        let this_id = summary.id;
        match domains.get(&this_id) {
            Some(cur) => {
                let (mut cur_start, mut cur_end) = *cur;
                if cur_start > summary.start {
                    cur_start = summary.start;
                }
                if cur_end < summary.end {
                    cur_end = summary.end;
                }
                domains.insert(this_id, (cur_start, cur_end));
            },
            None => {
                domains.insert(this_id, (summary.start, summary.end));
            },
        }
        i = i + 1;
    }
    assert(summaries@.take(summaries.len() as int) =~= summaries@);
    domains
}

/// The domain of non-empty summaries contains every summary: no summary starts
/// before the domain's start or ends after its end, and some summary starts at
/// the domain's start and some ends at its end.
pub proof fn lemma_domain_bounds(s: Seq<SummaryRecord>)
    requires
        s.len() > 0,
    ensures
        forall|i: int| 0 <= i < s.len() ==> min_start(s) <= (#[trigger] s[i]).start && s[i].end <= max_end(s),
        exists|i: int| 0 <= i < s.len() && (#[trigger] s[i]).start == min_start(s),
        exists|i: int| 0 <= i < s.len() && (#[trigger] s[i]).end == max_end(s),
    decreases s.len(),
{
    if s.len() > 1 {
        let t = s.drop_last();
        lemma_domain_bounds(t);
        assert forall|i: int| 0 <= i < s.len() implies min_start(s) <= (#[trigger] s[i]).start
            && s[i].end <= max_end(s) by {
            if i < t.len() {
                assert(s[i] == t[i]);
            }
        }
        let a = choose|i: int| 0 <= i < t.len() && (#[trigger] t[i]).start == min_start(t);
        let b = choose|i: int| 0 <= i < t.len() && (#[trigger] t[i]).end == max_end(t);
        assert(s[a] == t[a]);
        assert(s[b] == t[b]);
        assert(s[s.len() - 1] == s.last());
    } else {
        assert(s[0].start == min_start(s));
    }
}

/// The summaries of an ID are exactly those of the sequence that describe it:
/// each describes the ID, and each of the sequence that does is among them.
pub proof fn lemma_with_id_exact(s: Seq<SummaryRecord>, id: i32)
    ensures
        forall|i: int| 0 <= i < with_id(s, id).len() ==> (#[trigger] with_id(s, id)[i]).id == id,
        forall|i: int| 0 <= i < s.len() && (#[trigger] s[i]).id == id ==> with_id(s, id).contains(s[i]),
    decreases s.len(),
{
    if s.len() > 0 {
        let t = s.drop_last();
        lemma_with_id_exact(t, id);
        assert forall|i: int| 0 <= i < s.len() && (#[trigger] s[i]).id == id implies with_id(s, id).contains(s[i]) by {
            if i < t.len() {
                assert(s[i] == t[i]);
                let k = choose|k: int| 0 <= k < with_id(t, id).len() && with_id(t, id)[k] == t[i];
                if s.last().id == id {
                    assert(with_id(s, id)[k] == t[i]);
                }
            } else {
                assert(with_id(s, id).last() == s[i]);
            }
        }
        if s.last().id == id {
            assert forall|i: int| 0 <= i < with_id(s, id).len() implies (#[trigger] with_id(s, id)[i]).id == id by {
                if i < with_id(t, id).len() {
                    assert(with_id(s, id)[i] == with_id(t, id)[i]);
                }
            }
        }
    }
}

/// The summaries are in order of their start.
pub open spec fn starts_sorted(s: Seq<SummaryRecord>) -> bool {
    forall|i: int, j: int| 0 <= i < j < s.len() ==> #[trigger] s[i].start <= #[trigger] s[j].start
}

proof fn lemma_insert_by_start_facts(s: Seq<SummaryRecord>, x: SummaryRecord)
    ensures
        insert_by_start(s, x).len() == s.len() + 1,
        forall|y: SummaryRecord| #[trigger] insert_by_start(s, x).contains(y) <==> (s.contains(y) || y == x),
        starts_sorted(s) ==> starts_sorted(insert_by_start(s, x)),
    decreases s.len(),
{
    let r = insert_by_start(s, x);
    if s.len() == 0 {
        assert(r =~= seq![x]);
        assert(r[0] == x);
    } else if x.start < s.last().start {
        let t = s.drop_last();
        lemma_insert_by_start_facts(t, x);
        let u = insert_by_start(t, x);
        assert(r == u.push(s.last()));
        assert forall|y: SummaryRecord| #[trigger] r.contains(y) <==> (s.contains(y) || y == x) by {
            if r.contains(y) {
                let j = choose|j: int| 0 <= j < r.len() && r[j] == y;
                if j == u.len() {
                    assert(s[s.len() - 1] == y);
                } else {
                    assert(u[j] == y);
                    assert(u.contains(y));
                    if t.contains(y) {
                        let i = choose|i: int| 0 <= i < t.len() && t[i] == y;
                        assert(s[i] == y);
                    }
                }
            }
            if s.contains(y) {
                let i = choose|i: int| 0 <= i < s.len() && s[i] == y;
                if i == s.len() - 1 {
                    assert(r[u.len() as int] == y);
                } else {
                    assert(t[i] == y);
                    assert(t.contains(y));
                    assert(u.contains(y));
                    let j = choose|j: int| 0 <= j < u.len() && u[j] == y;
                    assert(r[j] == y);
                }
            }
            if y == x {
                assert(u.contains(x));
                let j = choose|j: int| 0 <= j < u.len() && u[j] == x;
                assert(r[j] == x);
            }
        }
        if starts_sorted(s) {
            assert(starts_sorted(t)) by {
                assert forall|i: int, j: int| 0 <= i < j < t.len() implies #[trigger] t[i].start <= #[trigger] t[j].start by {
                    assert(t[i] == s[i] && t[j] == s[j]);
                }
            }
            assert forall|i: int, j: int| 0 <= i < j < r.len() implies #[trigger] r[i].start <= #[trigger] r[j].start by {
                if j < u.len() {
                    assert(r[i] == u[i] && r[j] == u[j]);
                } else {
                    assert(r[i] == u[i]);
                    assert(u.contains(u[i]));
                    if u[i] != x {
                        assert(t.contains(u[i]));
                        let m = choose|m: int| 0 <= m < t.len() && t[m] == u[i];
                        assert(s[m] == u[i]);
                        assert(s[m].start <= s[s.len() - 1].start);
                    }
                }
            }
        }
    } else {
        assert(r == s.push(x));
        assert forall|y: SummaryRecord| #[trigger] r.contains(y) <==> (s.contains(y) || y == x) by {
            if r.contains(y) {
                let j = choose|j: int| 0 <= j < r.len() && r[j] == y;
                if j < s.len() {
                    assert(s[j] == y);
                }
            }
            if s.contains(y) {
                let i = choose|i: int| 0 <= i < s.len() && s[i] == y;
                assert(r[i] == y);
            }
            if y == x {
                assert(r[s.len() as int] == x);
            }
        }
        if starts_sorted(s) {
            assert forall|i: int, j: int| 0 <= i < j < r.len() implies #[trigger] r[i].start <= #[trigger] r[j].start by {
                if j < s.len() {
                    assert(r[i] == s[i] && r[j] == s[j]);
                } else {
                    assert(r[i] == s[i]);
                    if i < s.len() - 1 {
                        assert(s[i].start <= s[s.len() - 1].start);
                    }
                }
            }
        }
    }
}

proof fn lemma_sort_by_start_facts(s: Seq<SummaryRecord>)
    ensures
        sort_by_start(s).len() == s.len(),
        forall|y: SummaryRecord| #[trigger] sort_by_start(s).contains(y) <==> s.contains(y),
        starts_sorted(sort_by_start(s)),
    decreases s.len(),
{
    if s.len() > 0 {
        let t = s.drop_last();
        lemma_sort_by_start_facts(t);
        lemma_insert_by_start_facts(sort_by_start(t), s.last());
        assert forall|y: SummaryRecord| #[trigger] sort_by_start(s).contains(y) <==> s.contains(y) by {
            if s.contains(y) {
                let i = choose|i: int| 0 <= i < s.len() && s[i] == y;
                if i < s.len() - 1 {
                    assert(t[i] == y);
                    assert(t.contains(y));
                }
            }
            if t.contains(y) {
                let i = choose|i: int| 0 <= i < t.len() && t[i] == y;
                assert(s[i] == y);
            }
        }
    }
}

/// The summaries fall apart at `c`: some end before `c`, some start at or
/// after it, and each does one or the other.
pub open spec fn splits_apart(s: Seq<SummaryRecord>, c: int) -> bool {
    &&& exists|i: int| 0 <= i < s.len() && (#[trigger] s[i]).end < c
    &&& exists|i: int| 0 <= i < s.len() && (#[trigger] s[i]).start >= c
    &&& forall|i: int| 0 <= i < s.len() ==> (#[trigger] s[i]).end < c || s[i].start >= c
}

proof fn lemma_first_start_at(t: Seq<SummaryRecord>, c: int, q: int)
    requires
        starts_sorted(t),
        0 <= q < t.len(),
        t[q].start >= c,
    ensures
        exists|p: int| 0 <= p <= q && (#[trigger] t[p]).start >= c && forall|m: int| 0 <= m < p ==> (#[trigger] t[m]).start < c,
    decreases q,
{
    if q > 0 && t[q - 1].start >= c {
        lemma_first_start_at(t, c, q - 1);
    } else {
        assert forall|m: int| 0 <= m < q implies (#[trigger] t[m]).start < c by {
            assert(t[m].start <= t[q - 1].start);
        }
    }
}

proof fn lemma_gap_gives_apart(s: Seq<SummaryRecord>)
    requires
        s.len() > 0,
        has_gap_in_order(sort_by_start(s)),
    ensures
        exists|c: int| #[trigger] splits_apart(s, c),
{
    let t = sort_by_start(s);
    lemma_sort_by_start_facts(s);
    let p = choose|p: int| 1 <= p < t.len() && #[trigger] t[p].start > max_end(t.take(p));
    let c = t[p].start as int;
    let pre = t.take(p);
    lemma_domain_bounds(pre);
    assert(pre[0] == t[0]);
    assert(t.contains(t[0]));
    assert(s.contains(t[0]));
    let i0 = choose|i: int| 0 <= i < s.len() && s[i] == t[0];
    assert(s[i0].end < c);
    assert(t.contains(t[p]));
    assert(s.contains(t[p]));
    let ip = choose|i: int| 0 <= i < s.len() && s[i] == t[p];
    assert(s[ip].start >= c);
    assert forall|i: int| 0 <= i < s.len() implies (#[trigger] s[i]).end < c || s[i].start >= c by {
        assert(s.contains(s[i]));
        assert(t.contains(s[i]));
        let q = choose|q: int| 0 <= q < t.len() && t[q] == s[i];
        if q < p {
            assert(pre[q] == t[q]);
        } else if q > p {
            assert(t[p].start <= t[q].start);
        }
    }
    assert(splits_apart(s, c));
}

proof fn lemma_apart_gives_gap(s: Seq<SummaryRecord>)
    requires
        s.len() > 0,
        forall|i: int| 0 <= i < s.len() ==> (#[trigger] s[i]).start <= s[i].end,
        exists|c: int| #[trigger] splits_apart(s, c),
    ensures
        has_gap_in_order(sort_by_start(s)),
{
    let t = sort_by_start(s);
    lemma_sort_by_start_facts(s);
    let c = choose|c: int| #[trigger] splits_apart(s, c);
    let ie = choose|i: int| 0 <= i < s.len() && (#[trigger] s[i]).end < c;
    let is = choose|i: int| 0 <= i < s.len() && (#[trigger] s[i]).start >= c;
    assert(s.contains(s[is]));
    assert(t.contains(s[is]));
    let qs = choose|q: int| 0 <= q < t.len() && t[q] == s[is];
    lemma_first_start_at(t, c, qs);
    let p = choose|p: int| 0 <= p <= qs && (#[trigger] t[p]).start >= c && forall|m: int| 0 <= m < p ==> (#[trigger] t[m]).start < c;
    assert(s.contains(s[ie]));
    assert(t.contains(s[ie]));
    let qe = choose|q: int| 0 <= q < t.len() && t[q] == s[ie];
    if qe >= p {
        if qe > p {
            assert(t[p].start <= t[qe].start);
        }
    }
    assert(p >= 1);
    let pre = t.take(p);
    assert forall|m: int| 0 <= m < pre.len() implies (#[trigger] pre[m]).end < c by {
        assert(pre[m] == t[m]);
        assert(t.contains(t[m]));
        assert(s.contains(t[m]));
        let i = choose|i: int| 0 <= i < s.len() && s[i] == t[m];
    }
    lemma_domain_bounds(pre);
    let k = choose|i: int| 0 <= i < pre.len() && (#[trigger] pre[i]).end == max_end(pre);
    assert(max_end(pre) < c);
    assert(t[p].start > max_end(t.take(p)));
    assert(has_gap_in_order(t));
}

/// Whether the coverage of some summaries has a gap does not depend on their
/// order: it has one exactly when the summaries fall apart into those that
/// end before some epoch and those that start at or after it. So summaries
/// that chain together, each starting no later than the latest end of those
/// that start before it, have no gap.
pub proof fn lemma_gap_iff_apart(s: Seq<SummaryRecord>)
    requires
        s.len() > 0,
        forall|i: int| 0 <= i < s.len() ==> (#[trigger] s[i]).start <= s[i].end,
    ensures
        spec_domain_and_gap(s).2 <==> exists|c: int| #[trigger] splits_apart(s, c),
{
    if has_gap_in_order(sort_by_start(s)) {
        lemma_gap_gives_apart(s);
    }
    if exists|c: int| #[trigger] splits_apart(s, c) {
        lemma_apart_gives_gap(s);
    }
}

} // verus!
