//! Flattening the scalars of a report into a table: one column per scalar,
//! sorted by name, and one row per epoch, sorted in time.
//!
//! The values are floating-point numbers, which the table carries by their
//! IEEE-754 bits, unchanged. A scalar that failed at an epoch is written as a
//! NaN, and every value of an epoch whose state could not be computed as
//! negative infinity.
use vstd::prelude::*;
use vstd::string::*;

use crate::almanac::Almanac;
use crate::errors::AnalysisError;

verus! {

/// The bits of `f64::NAN`.
pub const NAN_BITS: u64 = 0x7ff8_0000_0000_0000u64;

/// The bits of `f64::NEG_INFINITY`.
pub const NEG_INFINITY_BITS: u64 = 0xfff0_0000_0000_0000u64;

/// The scalars evaluated at one epoch: each scalar's name and value (`None`
/// where it failed), or `None` where the state at that epoch failed.
#[derive(Clone, Debug)]
pub struct ScalarsAtEpoch {
    /// The epoch, in TAI nanoseconds.
    pub epoch: i128,
    /// The name and the value bits of each scalar.
    pub values: Option<Vec<(String, Option<u64>)>>,
}

/// One row of a table of scalars.
#[derive(Clone, Debug, PartialEq, Eq)]
pub struct ScalarsRow {
    /// The epoch, in TAI nanoseconds.
    pub epoch: i128,
    /// The value bits of each column.
    pub values: Vec<u64>,
}

/// A table of scalars; the epoch column is implicit and always first.
#[derive(Clone, Debug, PartialEq, Eq)]
pub struct ScalarsTable {
    /// The name of each column after the epoch.
    pub headers: Vec<String>,
    /// The rows, in time order.
    pub rows: Vec<ScalarsRow>,
}

/// The view of the scalars of one epoch: names and value bits.
pub open spec fn scalars_view(m: Seq<(String, Option<u64>)>) -> Seq<(Seq<char>, Option<u64>)> {
    m.map_values(|p: (String, Option<u64>)| (p.0@, p.1))
}

/// The view of the scalars at one epoch.
pub open spec fn epoch_view(e: ScalarsAtEpoch) -> (i128, Option<Seq<(Seq<char>, Option<u64>)>>) {
    (
        e.epoch,
        match e.values {
            Some(m) => Some(scalars_view(m@)),
            None => None,
        },
    )
}

/// The view of the scalars at every epoch.
pub open spec fn data_view(d: Seq<ScalarsAtEpoch>) -> Seq<(i128, Option<Seq<(Seq<char>, Option<u64>)>>)> {
    d.map_values(|e: ScalarsAtEpoch| epoch_view(e))
}

/// The view of a table: its headers and, for each row, its epoch and values.
pub open spec fn table_view(t: ScalarsTable) -> (Seq<Seq<char>>, Seq<(i128, Seq<u64>)>) {
    (t.headers@.map_values(|h: String| h@), t.rows@.map_values(|r: ScalarsRow| (r.epoch, r.values@)))
}

/// `a` comes before `b` in lexicographic order of their characters (which is
/// the byte order of their UTF-8 encodings).
pub open spec fn chars_lt(a: Seq<char>, b: Seq<char>) -> bool
    decreases a.len(),
{
    if a.len() == 0 {
        b.len() > 0
    } else if b.len() == 0 {
        false
    } else if a[0] != b[0] {
        (a[0] as int) < (b[0] as int)
    } else {
        chars_lt(a.skip(1), b.skip(1))
    }
}

/// Inserts `x` after every name that does not come after it.
pub open spec fn insert_name(s: Seq<Seq<char>>, x: Seq<char>) -> Seq<Seq<char>>
    decreases s.len(),
{
    if s.len() == 0 {
        seq![x]
    } else if chars_lt(x, s.last()) {
        insert_name(s.drop_last(), x).push(s.last())
    } else {
        s.push(x)
    }
}

/// The names in lexicographic order.
pub open spec fn sort_names(s: Seq<Seq<char>>) -> Seq<Seq<char>>
    decreases s.len(),
{
    if s.len() == 0 {
        seq![]
    } else {
        insert_name(sort_names(s.drop_last()), s.last())
    }
}

/// Inserts `x` after every entry whose epoch is not later than its own.
pub open spec fn insert_by_epoch<V>(s: Seq<(i128, V)>, x: (i128, V)) -> Seq<(i128, V)>
    decreases s.len(),
{
    if s.len() == 0 {
        seq![x]
    } else if x.0 < s.last().0 {
        insert_by_epoch(s.drop_last(), x).push(s.last())
    } else {
        s.push(x)
    }
}

/// The entries ordered by epoch, entries of the same epoch keeping their
/// order (a stable sort by epoch).
pub open spec fn sort_by_epoch<V>(s: Seq<(i128, V)>) -> Seq<(i128, V)>
    decreases s.len(),
{
    if s.len() == 0 {
        seq![]
    } else {
        insert_by_epoch(sort_by_epoch(s.drop_last()), s.last())
    }
}

/// Position of the first scalar of this name.
pub open spec fn name_pos(m: Seq<(Seq<char>, Option<u64>)>, k: Seq<char>) -> int {
    choose|i: int| 0 <= i < m.len() && m[i].0 == k && forall|j: int| 0 <= j < i ==> #[trigger] m[j].0 != k
}

/// Some scalar has this name.
pub open spec fn has_name(m: Seq<(Seq<char>, Option<u64>)>, k: Seq<char>) -> bool {
    exists|i: int| 0 <= i < m.len() && #[trigger] m[i].0 == k
}

/// The bits written for the scalar of this name: its value, or a NaN where
/// it failed.
pub open spec fn cell_bits(m: Seq<(Seq<char>, Option<u64>)>, k: Seq<char>) -> u64 {
    if has_name(m, k) {
        match m[name_pos(m, k)].1 {
            Some(b) => b,
            None => NAN_BITS,
        }
    } else {
        NAN_BITS
    }
}

/// The row of one epoch: the value of each header, or negative infinity
/// everywhere where the state failed.
pub open spec fn row_of(e: (i128, Option<Seq<(Seq<char>, Option<u64>)>>), headers: Seq<Seq<char>>) -> (i128, Seq<u64>) {
    (
        e.0,
        match e.1 {
            Some(m) => headers.map_values(|h: Seq<char>| cell_bits(m, h)),
            None => Seq::new(headers.len(), |i: int| NEG_INFINITY_BITS),
        },
    )
}

/// Some epoch has its scalars.
pub open spec fn has_ok(d: Seq<(i128, Option<Seq<(Seq<char>, Option<u64>)>>)>) -> bool {
    exists|i: int| 0 <= i < d.len() && #[trigger] d[i].1 is Some
}

/// The first epoch that has its scalars.
pub open spec fn first_ok(d: Seq<(i128, Option<Seq<(Seq<char>, Option<u64>)>>)>) -> int {
    choose|i: int| 0 <= i < d.len() && d[i].1 is Some && forall|j: int| 0 <= j < i ==> #[trigger] d[j].1 is None
}

/// The table of the scalars, or `None` where no epoch has its scalars: the
/// headers are the scalar names, sorted; the rows follow the epochs in time.
pub open spec fn flat_table(d: Seq<(i128, Option<Seq<(Seq<char>, Option<u64>)>>)>) -> Option<(Seq<Seq<char>>, Seq<(i128, Seq<u64>)>)> {
    if d.len() == 0 {
        Some((seq![], seq![]))
    } else if !has_ok(d) {
        None
    } else {
        let headers = sort_names(d[first_ok(d)].1.unwrap().map_values(|p: (Seq<char>, Option<u64>)| p.0));
        Some((headers, sort_by_epoch(d).map_values(|e: (i128, Option<Seq<(Seq<char>, Option<u64>)>>)| row_of(e, headers))))
    }
}

/// Every epoch with its scalars has each scalar name of the first such epoch
/// (the names that become the headers); it may have more.
pub open spec fn first_names_everywhere(d: Seq<(i128, Option<Seq<(Seq<char>, Option<u64>)>>)>) -> bool {
    has_ok(d) ==> forall|j: int, k: Seq<char>|
        0 <= j < d.len() && d[j].1 is Some && #[trigger] has_name(d[first_ok(d)].1.unwrap(), k) ==> #[trigger] has_name(
            d[j].1.unwrap(),
            k,
        )
}

proof fn lemma_chars_lt_skip(a: Seq<char>, b: Seq<char>, i: int)
    requires
        0 <= i < a.len(),
        i < b.len(),
        a[i] == b[i],
    ensures
        chars_lt(a.skip(i), b.skip(i)) == chars_lt(a.skip(i + 1), b.skip(i + 1)),
{
    assert(a.skip(i).skip(1) =~= a.skip(i + 1));
    assert(b.skip(i).skip(1) =~= b.skip(i + 1));
}

/// Whether `a` comes before `b` in lexicographic order.
fn name_lt(a: &String, b: &String) -> (r: bool)
    ensures
        r == chars_lt(a@, b@),
{
    let sa = a.as_str();
    let sb = b.as_str();
    let na = sa.unicode_len();
    let nb = sb.unicode_len();
    let mut i: usize = 0;
    assert(a@.skip(0) =~= a@);
    assert(b@.skip(0) =~= b@);
    while i < na && i < nb
        invariant
            na == a@.len(),
            nb == b@.len(),
            sa@ == a@,
            sb@ == b@,
            i <= na,
            i <= nb,
            chars_lt(a@, b@) == chars_lt(a@.skip(i as int), b@.skip(i as int)),
        decreases na - i,
    {
        let ca = sa.get_char(i);
        let cb = sb.get_char(i);
        if ca != cb {
            assert(a@.skip(i as int)[0] == ca);
            assert(b@.skip(i as int)[0] == cb);
            return (ca as u32) < (cb as u32);
        }
        proof {
            lemma_chars_lt_skip(a@, b@, i as int);
        }
        i = i + 1;
    }
    i == na && i < nb
}

proof fn lemma_insert_name_at(s: Seq<Seq<char>>, x: Seq<char>, j: int)
    requires
        0 <= j <= s.len(),
        forall|m: int| j <= m < s.len() ==> chars_lt(x, #[trigger] s[m]),
        j > 0 ==> !chars_lt(x, s[j - 1]),
    ensures
        insert_name(s, x) == s.take(j) + seq![x] + s.skip(j),
    decreases s.len(),
{
    if s.len() == 0 {
        assert(s.take(j) + seq![x] + s.skip(j) =~= seq![x]);
    } else if chars_lt(x, s.last()) {
        let t = s.drop_last();
        assert forall|m: int| j <= m < t.len() implies chars_lt(x, #[trigger] t[m]) by {
            assert(t[m] == s[m]);
        }
        if j > 0 {
            assert(t[j - 1] == s[j - 1]);
        }
        lemma_insert_name_at(t, x, j);
        assert(insert_name(s, x) =~= s.take(j) + seq![x] + s.skip(j));
    } else {
        assert(s.take(j) + seq![x] + s.skip(j) =~= s.push(x));
    }
}

/// The views of names.
pub open spec fn names_view(v: Seq<String>) -> Seq<Seq<char>> {
    v.map_values(|s: String| s@)
}

fn insert_name_exec(v: &mut Vec<String>, x: String)
    ensures
        names_view(final(v)@) == insert_name(names_view(old(v)@), x@),
{
    let ghost s = names_view(v@);
    let mut j: usize = v.len();
    while j > 0 && name_lt(&x, &v[j - 1])
        invariant
            j <= v.len(),
            s == names_view(v@),
            forall|m: int| j <= m < s.len() ==> chars_lt(x@, #[trigger] s[m]),
        decreases j,
    {
        j = j - 1;
    }
    proof {
        if j > 0 {
            assert(s[j - 1] == v@[j - 1]@);
        }
        lemma_insert_name_at(s, x@, j as int);
    }
    let ghost xv = x@;
    v.insert(j, x);
    assert(names_view(v@) =~= s.take(j as int) + seq![xv] + s.skip(j as int));
}

fn sort_names_exec(names: Vec<String>) -> (r: Vec<String>)
    ensures
        names_view(r@) == sort_names(names_view(names@)),
{
    let ghost all = names_view(names@);
    let mut rest = names;
    let mut out: Vec<String> = Vec::new();
    let mut done: usize = 0;
    let total = rest.len();
    while rest.len() > 0
        invariant
            done + rest@.len() == all.len(),
            total == all.len(),
            names_view(rest@) == all.skip(done as int),
            names_view(out@) == sort_names(all.take(done as int)),
        decreases rest@.len(),
    {
        let ghost before = rest@;
        let x = rest.remove(0);
        proof {
            assert(x@ == names_view(before)[0]);
            assert(all.take(done + 1).drop_last() =~= all.take(done as int));
            assert(all.take(done + 1).last() == x@);
        }
        insert_name_exec(&mut out, x);
        proof {
            assert(names_view(rest@) =~= names_view(before).skip(1));
            assert(all.skip(done as int).skip(1) =~= all.skip(done + 1));
        }
        done = done + 1;
    }
    assert(all.take(done as int) =~= all);
    out
}

pub(crate) proof fn lemma_insert_by_epoch_at<V>(s: Seq<(i128, V)>, x: (i128, V), j: int)
    requires
        0 <= j <= s.len(),
        forall|m: int| j <= m < s.len() ==> x.0 < #[trigger] s[m].0,
        j > 0 ==> !(x.0 < s[j - 1].0),
    ensures
        insert_by_epoch(s, x) == s.take(j) + seq![x] + s.skip(j),
    decreases s.len(),
{
    if s.len() == 0 {
        assert(s.take(j) + seq![x] + s.skip(j) =~= seq![x]);
    } else if x.0 < s.last().0 {
        let t = s.drop_last();
        assert forall|m: int| j <= m < t.len() implies x.0 < #[trigger] t[m].0 by {
            assert(t[m] == s[m]);
        }
        if j > 0 {
            assert(t[j - 1] == s[j - 1]);
        }
        lemma_insert_by_epoch_at(t, x, j);
        assert(insert_by_epoch(s, x) =~= s.take(j) + seq![x] + s.skip(j));
    } else {
        assert(s.take(j) + seq![x] + s.skip(j) =~= s.push(x));
    }
}

fn insert_by_epoch_exec(v: &mut Vec<ScalarsAtEpoch>, x: ScalarsAtEpoch)
    ensures
        data_view(final(v)@) == insert_by_epoch(data_view(old(v)@), epoch_view(x)),
{
    let ghost s = data_view(v@);
    let mut j: usize = v.len();
    while j > 0 && x.epoch < v[j - 1].epoch
        invariant
            j <= v.len(),
            s == data_view(v@),
            forall|m: int| j <= m < s.len() ==> x.epoch < #[trigger] s[m].0,
        decreases j,
    {
        j = j - 1;
    }
    proof {
        if j > 0 {
            assert(s[j - 1].0 == v@[j - 1].epoch);
        }
        lemma_insert_by_epoch_at(s, epoch_view(x), j as int);
    }
    let ghost xv = epoch_view(x);
    v.insert(j, x);
    assert(data_view(v@) =~= s.take(j as int) + seq![xv] + s.skip(j as int));
}

fn sort_by_epoch_exec(data: Vec<ScalarsAtEpoch>) -> (r: Vec<ScalarsAtEpoch>)
    ensures
        data_view(r@) == sort_by_epoch(data_view(data@)),
{
    let ghost all = data_view(data@);
    let mut rest = data;
    let mut out: Vec<ScalarsAtEpoch> = Vec::new();
    let mut done: usize = 0;
    let total = rest.len();
    while rest.len() > 0
        invariant
            done + rest@.len() == all.len(),
            total == all.len(),
            data_view(rest@) == all.skip(done as int),
            data_view(out@) == sort_by_epoch(all.take(done as int)),
        decreases rest@.len(),
    {
        let ghost before = rest@;
        let x = rest.remove(0);
        proof {
            assert(epoch_view(x) == data_view(before)[0]);
            assert(all.take(done + 1).drop_last() =~= all.take(done as int));
            assert(all.take(done + 1).last() == epoch_view(x));
        }
        insert_by_epoch_exec(&mut out, x);
        proof {
            assert(data_view(rest@) =~= data_view(before).skip(1));
            assert(all.skip(done as int).skip(1) =~= all.skip(done + 1));
        }
        done = done + 1;
    }
    assert(all.take(done as int) =~= all);
    out
}

/// The bits of the scalar of this name.
fn cell_exec(m: &Vec<(String, Option<u64>)>, k: &String) -> (r: u64)
    ensures
        r == cell_bits(scalars_view(m@), k@),
{
    let ghost v = scalars_view(m@);
    let mut i: usize = 0;
    while i < m.len()
        invariant
            i <= m.len(),
            v == scalars_view(m@),
            forall|j: int| 0 <= j < i ==> #[trigger] v[j].0 != k@,
        decreases m.len() - i,
    {
        if m[i].0 == *k {
            assert(v[i as int].0 == k@);
            assert(has_name(v, k@));
            assert(name_pos(v, k@) == i);
            return match m[i].1 {
                Some(b) => b,
                None => NAN_BITS,
            };
        }
        i = i + 1;
    }
    assert(!has_name(v, k@));
    NAN_BITS
}

/// The row of one epoch.
fn row_exec(e: &ScalarsAtEpoch, headers: &Vec<String>) -> (r: ScalarsRow)
    ensures
        (r.epoch, r.values@) == row_of(epoch_view(*e), names_view(headers@)),
{
    let ghost hv = names_view(headers@);
    let mut values: Vec<u64> = Vec::new();
    let mut i: usize = 0;
    while i < headers.len()
        invariant
            i <= headers.len(),
            hv == names_view(headers@),
            values@.len() == i,
            forall|j: int| 0 <= j < i ==> #[trigger] values@[j] == row_of(epoch_view(*e), hv).1[j],
        decreases headers.len() - i,
    {
        let bits = match &e.values {
            Some(m) => cell_exec(m, &headers[i]),
            None => NEG_INFINITY_BITS,
        };
        values.push(bits);
        i = i + 1;
    }
    assert(values@ =~= row_of(epoch_view(*e), hv).1);
    ScalarsRow { epoch: e.epoch, values }
}

impl Almanac {
    /// Flattens the scalars evaluated at each epoch into a table: the headers
    /// are the names of the scalars, sorted; each row gives, in time order,
    /// the values of one epoch in header order, a NaN for a scalar that
    /// failed, and negative infinity everywhere for an epoch whose state
    /// failed. No epoch gives an empty table; epochs that all failed give
    /// `AllScalarsFailed`, naming the state specification `spec`.
    pub fn report_scalars_flat(data: Vec<ScalarsAtEpoch>, spec: String) -> (r: Result<ScalarsTable, AnalysisError>)
        requires
            first_names_everywhere(data_view(data@)),
        ensures
            match flat_table(data_view(data@)) {
                None => r matches Err(AnalysisError::AllScalarsFailed { spec: s }) && s@ == spec@,
                Some(t) => r matches Ok(tab) && table_view(tab) == t,
            },
    {
        let ghost d = data_view(data@);
        if data.len() == 0 {
            let tab = ScalarsTable { headers: Vec::new(), rows: Vec::new() };
            assert(table_view(tab).0 =~= Seq::<Seq<char>>::empty());
            assert(table_view(tab).1 =~= Seq::<(i128, Seq<u64>)>::empty());
            return Ok(tab);
        }
        let mut first: usize = 0;
        while first < data.len() && data[first].values.is_none()
            invariant
                first <= data.len(),
                d == data_view(data@),
                forall|j: int| 0 <= j < first ==> #[trigger] d[j].1 is None,
            decreases data.len() - first,
        {
            first = first + 1;
        }
        if first == data.len() {
            assert(!has_ok(d));
            return Err(AnalysisError::AllScalarsFailed { spec });
        }
        assert(d[first as int].1 is Some);
        assert(first_ok(d) == first);
        let mut names: Vec<String> = Vec::new();
        match &data[first].values {
            Some(m) => {
                let mut i: usize = 0;
                while i < m.len()
                    invariant
                        i <= m.len(),
                        names_view(names@) == scalars_view(m@).take(i as int).map_values(
                            |p: (Seq<char>, Option<u64>)| p.0,
                        ),
                    decreases m.len() - i,
                {
                    let ghost prev = names@;
                    let name = m[i].0.clone();
                    names.push(name);
                    proof {
                        assert(names_view(names@) =~= names_view(prev).push(m@[i as int].0@));
                        assert(scalars_view(m@).take(i + 1).map_values(|p: (Seq<char>, Option<u64>)| p.0)
                            =~= scalars_view(m@).take(i as int).map_values(|p: (Seq<char>, Option<u64>)| p.0).push(
                            m@[i as int].0@,
                        ));
                    }
                    i = i + 1;
                }
                assert(scalars_view(m@).take(i as int) =~= scalars_view(m@));
            },
            None => {},
        }
        let headers = sort_names_exec(names);
        let ghost hv = names_view(headers@);
        let sorted = sort_by_epoch_exec(data);
        let mut rows: Vec<ScalarsRow> = Vec::new();
        let mut i: usize = 0;
        while i < sorted.len()
            invariant
                i <= sorted.len(),
                hv == names_view(headers@),
                rows@.len() == i,
                forall|j: int|
                    0 <= j < i ==> (#[trigger] rows@[j]).epoch == row_of(data_view(sorted@)[j], hv).0
                        && rows@[j].values@ == row_of(data_view(sorted@)[j], hv).1,
            decreases sorted.len() - i,
        {
            let row = row_exec(&sorted[i], &headers);
            rows.push(row);
            i = i + 1;
        }
        let tab = ScalarsTable { headers, rows };
        assert(table_view(tab).1 =~= data_view(sorted@).map_values(
            |e: (i128, Option<Seq<(Seq<char>, Option<u64>)>>)| row_of(e, hv),
        ));
        Ok(tab)
    }
}

proof fn lemma_insert_by_epoch_sorted<V>(s: Seq<(i128, V)>, x: (i128, V))
    requires
        forall|i: int, j: int| 0 <= i < j < s.len() ==> s[i].0 <= s[j].0,
    ensures
        forall|i: int, j: int|
            0 <= i < j < insert_by_epoch(s, x).len() ==> insert_by_epoch(s, x)[i].0 <= insert_by_epoch(s, x)[j].0,
        insert_by_epoch(s, x).len() == s.len() + 1,
    decreases s.len(),
{
    if s.len() > 0 && x.0 < s.last().0 {
        let t = s.drop_last();
        lemma_insert_by_epoch_sorted(t, x);
        lemma_insert_by_epoch_bounded(t, x, s.last().0);
    }
}

proof fn lemma_insert_by_epoch_bounded<V>(s: Seq<(i128, V)>, x: (i128, V), b: i128)
    requires
        forall|i: int| 0 <= i < s.len() ==> s[i].0 <= b,
        x.0 <= b,
    ensures
        forall|i: int| 0 <= i < insert_by_epoch(s, x).len() ==> insert_by_epoch(s, x)[i].0 <= b,
    decreases s.len(),
{
    if s.len() > 0 && x.0 < s.last().0 {
        let t = s.drop_last();
        assert forall|i: int| 0 <= i < t.len() implies t[i].0 <= b by {
            assert(t[i] == s[i]);
        }
        lemma_insert_by_epoch_bounded(t, x, b);
        let r = insert_by_epoch(s, x);
        assert forall|i: int| 0 <= i < r.len() implies r[i].0 <= b by {
            if i < r.len() - 1 {
                assert(r[i] == insert_by_epoch(t, x)[i]);
            }
        }
    }
}

/// Sorting by epoch gives the entries in time order.
pub proof fn lemma_sort_by_epoch_sorted<V>(s: Seq<(i128, V)>)
    ensures
        sort_by_epoch(s).len() == s.len(),
        forall|i: int, j: int| 0 <= i < j < s.len() ==> sort_by_epoch(s)[i].0 <= sort_by_epoch(s)[j].0,
    decreases s.len(),
{
    if s.len() > 0 {
        lemma_sort_by_epoch_sorted(s.drop_last());
        lemma_insert_by_epoch_sorted(sort_by_epoch(s.drop_last()), s.last());
    }
}

/// The rows of a report table follow the epochs in time order, one row per
/// epoch, each with one value per header.
pub proof fn lemma_report_rows_in_time_order(d: Seq<(i128, Option<Seq<(Seq<char>, Option<u64>)>>)>)
    requires
        flat_table(d) is Some,
    ensures
        flat_table(d).unwrap().1.len() == d.len(),
        forall|i: int, j: int|
            0 <= i < j < d.len() ==> flat_table(d).unwrap().1[i].0 <= flat_table(d).unwrap().1[j].0,
        forall|i: int|
            0 <= i < d.len() ==> (#[trigger] flat_table(d).unwrap().1[i]).1.len() == flat_table(d).unwrap().0.len(),
{
    lemma_sort_by_epoch_sorted(d);
    if d.len() > 0 {
        let t = flat_table(d).unwrap();
        assert forall|i: int| 0 <= i < d.len() implies (#[trigger] t.1[i]).1.len() == t.0.len() by {
            assert(t.1[i] == row_of(sort_by_epoch(d)[i], t.0));
        }
    }
}

proof fn lemma_chars_lt_irreflexive(a: Seq<char>)
    ensures
        !chars_lt(a, a),
    decreases a.len(),
{
    if a.len() > 0 {
        lemma_chars_lt_irreflexive(a.skip(1));
    }
}

proof fn lemma_chars_lt_transitive(a: Seq<char>, b: Seq<char>, c: Seq<char>)
    requires
        chars_lt(a, b),
        chars_lt(b, c),
    ensures
        chars_lt(a, c),
    decreases a.len(),
{
    if a.len() > 0 && b.len() > 0 && c.len() > 0 && a[0] == b[0] && b[0] == c[0] {
        lemma_chars_lt_transitive(a.skip(1), b.skip(1), c.skip(1));
    }
}

proof fn lemma_chars_lt_total(a: Seq<char>, b: Seq<char>)
    ensures
        a == b || chars_lt(a, b) || chars_lt(b, a),
    decreases a.len(),
{
    if a.len() > 0 && b.len() > 0 && a[0] == b[0] {
        lemma_chars_lt_total(a.skip(1), b.skip(1));
        if a.skip(1) == b.skip(1) {
            assert(a.len() == b.len());
            assert forall|i: int| 0 <= i < a.len() implies a[i] == b[i] by {
                if i > 0 {
                    assert(a[i] == a.skip(1)[i - 1]);
                    assert(b[i] == b.skip(1)[i - 1]);
                }
            }
            assert(a =~= b);
        }
    } else if a.len() > 0 && b.len() > 0 {
        assert((a[0] as int) != (b[0] as int));
    }
}

/// `a` does not come after `b`.
pub open spec fn chars_le(a: Seq<char>, b: Seq<char>) -> bool {
    !chars_lt(b, a)
}

proof fn lemma_chars_le_transitive(a: Seq<char>, b: Seq<char>, c: Seq<char>)
    requires
        chars_le(a, b),
        chars_le(b, c),
    ensures
        chars_le(a, c),
{
    if chars_lt(c, a) {
        lemma_chars_lt_total(a, b);
        lemma_chars_lt_total(b, c);
        if a == b {
        } else if b == c {
        } else {
            lemma_chars_lt_transitive(a, b, c);
            lemma_chars_lt_transitive(c, a, b);
        }
    }
}

proof fn lemma_insert_name_bounded(s: Seq<Seq<char>>, x: Seq<char>, b: Seq<char>)
    requires
        forall|i: int| 0 <= i < s.len() ==> chars_le(#[trigger] s[i], b),
        chars_le(x, b),
    ensures
        forall|i: int| 0 <= i < insert_name(s, x).len() ==> chars_le(#[trigger] insert_name(s, x)[i], b),
        insert_name(s, x).len() == s.len() + 1,
    decreases s.len(),
{
    if s.len() > 0 && chars_lt(x, s.last()) {
        let t = s.drop_last();
        assert forall|i: int| 0 <= i < t.len() implies chars_le(#[trigger] t[i], b) by {
            assert(t[i] == s[i]);
        }
        lemma_insert_name_bounded(t, x, b);
        let r = insert_name(s, x);
        assert forall|i: int| 0 <= i < r.len() implies chars_le(#[trigger] r[i], b) by {
            if i < r.len() - 1 {
                assert(r[i] == insert_name(t, x)[i]);
            }
        }
    }
}

proof fn lemma_insert_name_sorted(s: Seq<Seq<char>>, x: Seq<char>)
    requires
        forall|i: int, j: int| 0 <= i < j < s.len() ==> chars_le(s[i], s[j]),
    ensures
        forall|i: int, j: int| 0 <= i < j < insert_name(s, x).len() ==> chars_le(insert_name(s, x)[i], insert_name(s, x)[j]),
        insert_name(s, x).len() == s.len() + 1,
    decreases s.len(),
{
    if s.len() == 0 {
    } else if chars_lt(x, s.last()) {
        let t = s.drop_last();
        let last = s.last();
        assert forall|i: int, j: int| 0 <= i < j < t.len() implies chars_le(t[i], t[j]) by {
            assert(t[i] == s[i] && t[j] == s[j]);
        }
        lemma_insert_name_sorted(t, x);
        assert forall|i: int| 0 <= i < t.len() implies chars_le(#[trigger] t[i], last) by {
            assert(t[i] == s[i]);
            lemma_chars_lt_irreflexive(last);
        }
        lemma_chars_lt_irreflexive(x);
        if chars_lt(last, x) {
            lemma_chars_lt_transitive(x, last, x);
        }
        lemma_insert_name_bounded(t, x, last);
        let r = insert_name(s, x);
        let u = insert_name(t, x);
        assert forall|i: int, j: int| 0 <= i < j < r.len() implies chars_le(r[i], r[j]) by {
            if j < r.len() - 1 {
                assert(r[i] == u[i] && r[j] == u[j]);
            } else {
                assert(r[i] == u[i]);
                assert(r[j] == last);
            }
        }
    } else {
        let last = s.last();
        let r = s.push(x);
        assert forall|i: int, j: int| 0 <= i < j < r.len() implies chars_le(r[i], r[j]) by {
            if j < s.len() {
                assert(r[i] == s[i] && r[j] == s[j]);
            } else {
                assert(r[i] == s[i]);
                if i < s.len() - 1 {
                    lemma_chars_le_transitive(s[i], last, x);
                }
            }
        }
    }
}

/// Sorting names gives them in lexicographic order.
pub proof fn lemma_sort_names_sorted(s: Seq<Seq<char>>)
    ensures
        sort_names(s).len() == s.len(),
        forall|i: int, j: int| 0 <= i < j < s.len() ==> chars_le(sort_names(s)[i], sort_names(s)[j]),
    decreases s.len(),
{
    if s.len() > 0 {
        lemma_sort_names_sorted(s.drop_last());
        lemma_insert_name_sorted(sort_names(s.drop_last()), s.last());
    }
}

/// The headers of a report table are the scalar names in lexicographic order.
pub proof fn lemma_report_headers_sorted(d: Seq<(i128, Option<Seq<(Seq<char>, Option<u64>)>>)>)
    requires
        flat_table(d) is Some,
    ensures
        forall|i: int, j: int|
            0 <= i < j < flat_table(d).unwrap().0.len() ==> chars_le(flat_table(d).unwrap().0[i], flat_table(d).unwrap().0[j]),
{
    if d.len() > 0 {
        lemma_sort_names_sorted(d[first_ok(d)].1.unwrap().map_values(|p: (Seq<char>, Option<u64>)| p.0));
    }
}

} // verus!
