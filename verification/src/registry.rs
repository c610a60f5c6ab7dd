//! The ordered registries of loaded kernels, keyed by alias.
//!
//! The Almanac keeps each kind of kernel in an `indexmap::IndexMap` from
//! alias to kernel: loading order is kept, a reload under an existing alias
//! replaces the kernel in its place, and the most recently loaded kernel is
//! the last one. Here the map is modelled by the sequence of its entries,
//! each an alias and the view of its kernel, in map order.
use indexmap::IndexMap;
use vstd::prelude::*;

use crate::domain::SummaryRecord;

verus! {

#[verifier::external_type_specification]
#[verifier::external_body]
#[verifier::reject_recursive_types(K)]
#[verifier::reject_recursive_types(V)]
#[verifier::reject_recursive_types(S)]
pub struct ExIndexMap<K, V, S>(IndexMap<K, V, S>);

/// A DAF kernel (SPK or BPC) as the Almanac's logic reads it: its summaries,
/// in the order in which the file stores them.
#[derive(Clone, Debug)]
pub struct DafKernel {
    /// The summaries that the kernel holds, in file order.
    pub summaries: Vec<SummaryRecord>,
}

impl View for DafKernel {
    type V = Seq<SummaryRecord>;

    open spec fn view(&self) -> Seq<SummaryRecord> {
        self.summaries@
    }
}

/// What an ANISE data set (planetary, spacecraft, Euler parameter, location
/// or instrument data) is looked up by: the IDs and the names of its lookup
/// table, each entry by its position in the data set.
#[derive(Clone, Debug)]
pub struct DataSetIndex {
    /// The ID of each entry, by position.
    pub ids: Vec<i32>,
    /// The name of each entry, by position.
    pub names: Vec<String>,
}

/// The view of a data set's lookup table: the ID and name of each entry.
pub open spec fn dataset_view(d: DataSetIndex) -> (Seq<i32>, Seq<Seq<char>>) {
    (d.ids@, d.names@.map_values(|s: String| s@))
}

impl View for DataSetIndex {
    type V = (Seq<i32>, Seq<Seq<char>>);

    open spec fn view(&self) -> (Seq<i32>, Seq<Seq<char>>) {
        dataset_view(*self)
    }
}

/// The entries of a map of DAF kernels, in map order.
pub uninterp spec fn daf_entries(m: IndexMap<String, DafKernel>) -> Seq<(Seq<char>, Seq<SummaryRecord>)>;

/// The entries of a map of data sets, in map order.
pub uninterp spec fn dataset_entries(m: IndexMap<String, DataSetIndex>) -> Seq<(Seq<char>, (Seq<i32>, Seq<Seq<char>>))>;

/// No two entries share an alias.
pub open spec fn keys_unique<X>(e: Seq<(Seq<char>, X)>) -> bool {
    forall|i: int, j: int| 0 <= i < e.len() && 0 <= j < e.len() && i != j ==> #[trigger] e[i].0 != #[trigger] e[j].0
}

/// Some entry has this alias.
pub open spec fn has_key<X>(e: Seq<(Seq<char>, X)>, k: Seq<char>) -> bool {
    exists|i: int| 0 <= i < e.len() && #[trigger] e[i].0 == k
}

/// The position of the entry with this alias (meaningful when there is one).
pub open spec fn key_index<X>(e: Seq<(Seq<char>, X)>, k: Seq<char>) -> int {
    choose|i: int| 0 <= i < e.len() && #[trigger] e[i].0 == k
}

/// The aliases of the entries, in order.
pub open spec fn entry_keys<X>(e: Seq<(Seq<char>, X)>) -> Seq<Seq<char>> {
    e.map_values(|p: (Seq<char>, X)| p.0)
}

/// Inserting: an existing alias keeps its place and takes the new value; a
/// new alias is appended last.
pub open spec fn entries_insert<X>(e: Seq<(Seq<char>, X)>, k: Seq<char>, v: X) -> Seq<(Seq<char>, X)> {
    if has_key(e, k) {
        e.update(key_index(e, k), (k, v))
    } else {
        e.push((k, v))
    }
}

/// Removing by swapping: the last entry takes the place of the removed one.
pub open spec fn entries_swap_remove<X>(e: Seq<(Seq<char>, X)>, k: Seq<char>) -> Seq<(Seq<char>, X)> {
    if has_key(e, k) {
        e.update(key_index(e, k), e.last()).drop_last()
    } else {
        e
    }
}

/// Removing by shifting: the entries after the removed one keep their order.
pub open spec fn entries_shift_remove<X>(e: Seq<(Seq<char>, X)>, k: Seq<char>) -> Seq<(Seq<char>, X)> {
    if has_key(e, k) {
        e.remove(key_index(e, k))
    } else {
        e
    }
}

/// `IndexMap::new`: an empty map of DAF kernels.
#[verifier::external_body]
pub(crate) fn daf_map_new() -> (m: IndexMap<String, DafKernel>)
    ensures
        daf_entries(m) == Seq::<(Seq<char>, Seq<SummaryRecord>)>::empty(),
{
    IndexMap::new()
}

/// `IndexMap::len`: the number of entries.
#[verifier::external_body]
pub(crate) fn daf_map_len(m: &IndexMap<String, DafKernel>) -> (n: usize)
    ensures
        n == daf_entries(*m).len(),
{
    m.len()
}

/// `IndexMap::get_index`: the alias and kernel at a position, if the position
/// is below the length.
#[verifier::external_body]
pub(crate) fn daf_map_get_index(m: &IndexMap<String, DafKernel>, i: usize) -> (r: Option<(&String, &DafKernel)>)
    ensures
        r is Some <==> i < daf_entries(*m).len(),
        r matches Some((k, v)) ==> k@ == daf_entries(*m)[i as int].0 && v@ == daf_entries(*m)[i as int].1,
{
    m.get_index(i)
}

/// `IndexMap::get_index_of`: the position of the entry of the alias, if any.
#[verifier::external_body]
pub(crate) fn daf_map_get_index_of(m: &IndexMap<String, DafKernel>, key: &str) -> (r: Option<usize>)
    requires
        keys_unique(daf_entries(*m)),
    ensures
        r is Some <==> has_key(daf_entries(*m), key@),
        r matches Some(i) ==> i == key_index(daf_entries(*m), key@),
{
    m.get_index_of(key)
}

/// `IndexMap::insert`: an existing alias keeps its place and its previous
/// kernel is returned; a new alias is appended last. Aliases stay unique.
#[verifier::external_body]
pub(crate) fn daf_map_insert(m: &mut IndexMap<String, DafKernel>, key: String, value: DafKernel) -> (r: Option<DafKernel>)
    requires
        keys_unique(daf_entries(*old(m))),
    ensures
        daf_entries(*final(m)) == entries_insert(daf_entries(*old(m)), key@, value@),
        keys_unique(daf_entries(*final(m))),
        r is Some <==> has_key(daf_entries(*old(m)), key@),
        r matches Some(p) ==> p@ == daf_entries(*old(m))[key_index(daf_entries(*old(m)), key@)].1,
{
    m.insert(key, value)
}

/// `IndexMap::swap_remove`: the entry of the alias is removed and the last
/// entry takes its place; the removed kernel is returned.
#[verifier::external_body]
pub(crate) fn daf_map_swap_remove(m: &mut IndexMap<String, DafKernel>, key: &str) -> (r: Option<DafKernel>)
    requires
        keys_unique(daf_entries(*old(m))),
    ensures
        daf_entries(*final(m)) == entries_swap_remove(daf_entries(*old(m)), key@),
        keys_unique(daf_entries(*final(m))),
        r is Some <==> has_key(daf_entries(*old(m)), key@),
        r matches Some(p) ==> p@ == daf_entries(*old(m))[key_index(daf_entries(*old(m)), key@)].1,
{
    m.swap_remove(key)
}

/// `IndexMap::shift_remove`: the entry of the alias is removed and the later
/// entries keep their order; the removed kernel is returned.
#[verifier::external_body]
pub(crate) fn daf_map_shift_remove(m: &mut IndexMap<String, DafKernel>, key: &str) -> (r: Option<DafKernel>)
    requires
        keys_unique(daf_entries(*old(m))),
    ensures
        daf_entries(*final(m)) == entries_shift_remove(daf_entries(*old(m)), key@),
        keys_unique(daf_entries(*final(m))),
        r is Some <==> has_key(daf_entries(*old(m)), key@),
        r matches Some(p) ==> p@ == daf_entries(*old(m))[key_index(daf_entries(*old(m)), key@)].1,
{
    m.shift_remove(key)
}

/// `IndexMap::new`: an empty map of data sets.
#[verifier::external_body]
pub(crate) fn dataset_map_new() -> (m: IndexMap<String, DataSetIndex>)
    ensures
        dataset_entries(m) == Seq::<(Seq<char>, (Seq<i32>, Seq<Seq<char>>))>::empty(),
{
    IndexMap::new()
}

/// `IndexMap::len`: the number of entries.
#[verifier::external_body]
pub(crate) fn dataset_map_len(m: &IndexMap<String, DataSetIndex>) -> (n: usize)
    ensures
        n == dataset_entries(*m).len(),
{
    m.len()
}

/// `IndexMap::get_index`: the alias and data set at a position, if the
/// position is below the length.
#[verifier::external_body]
pub(crate) fn dataset_map_get_index(m: &IndexMap<String, DataSetIndex>, i: usize) -> (r: Option<(&String, &DataSetIndex)>)
    ensures
        r is Some <==> i < dataset_entries(*m).len(),
        r matches Some((k, v)) ==> k@ == dataset_entries(*m)[i as int].0 && v@ == dataset_entries(*m)[i as int].1,
{
    m.get_index(i)
}

/// `IndexMap::insert`: an existing alias keeps its place and its previous
/// data set is returned; a new alias is appended last. Aliases stay unique.
#[verifier::external_body]
pub(crate) fn dataset_map_insert(m: &mut IndexMap<String, DataSetIndex>, key: String, value: DataSetIndex) -> (r: Option<DataSetIndex>)
    requires
        keys_unique(dataset_entries(*old(m))),
    ensures
        dataset_entries(*final(m)) == entries_insert(dataset_entries(*old(m)), key@, value@),
        keys_unique(dataset_entries(*final(m))),
        r is Some <==> has_key(dataset_entries(*old(m)), key@),
        r matches Some(p) ==> p@ == dataset_entries(*old(m))[key_index(dataset_entries(*old(m)), key@)].1,
{
    m.insert(key, value)
}

/// Loading under a new alias, then unloading that alias, gives back the
/// entries as they were.
pub proof fn lemma_insert_then_swap_remove<X>(e: Seq<(Seq<char>, X)>, k: Seq<char>, v: X)
    requires
        keys_unique(e),
        !has_key(e, k),
    ensures
        entries_swap_remove(entries_insert(e, k, v), k) == e,
{
    let f = e.push((k, v));
    assert(f[e.len() as int].0 == k);
    assert(has_key(f, k));
    let i = key_index(f, k);
    if i != e.len() {
        assert(e[i].0 == k);
    }
    assert(f.update(i, f.last()).drop_last() =~= e);
}

/// After an alias is unloaded it is no longer loaded, and every other alias
/// is loaded exactly when it was before; one entry fewer remains where the
/// alias was loaded.
pub proof fn lemma_swap_remove_keys<X>(e: Seq<(Seq<char>, X)>, k: Seq<char>, other: Seq<char>)
    requires
        keys_unique(e),
        other != k,
    ensures
        !has_key(entries_swap_remove(e, k), k),
        has_key(entries_swap_remove(e, k), other) == has_key(e, other),
        entries_swap_remove(e, k).len() == if has_key(e, k) { e.len() - 1 } else { e.len() as int },
{
    if has_key(e, k) {
        let i = key_index(e, k);
        let last = e.len() - 1;
        let f = entries_swap_remove(e, k);
        assert(f =~= e.update(i, e[last]).drop_last());
        if has_key(f, k) {
            let j = choose|j: int| 0 <= j < f.len() && #[trigger] f[j].0 == k;
            if j == i {
                assert(e[last].0 == k);
            } else {
                assert(e[j].0 == k);
            }
        }
        if has_key(e, other) {
            let j = choose|j: int| 0 <= j < e.len() && #[trigger] e[j].0 == other;
            if j == last {
                assert(f[i].0 == other);
            } else {
                assert(f[j].0 == other);
            }
        }
        if has_key(f, other) {
            let j = choose|j: int| 0 <= j < f.len() && #[trigger] f[j].0 == other;
            if j == i {
                assert(e[last].0 == other);
            } else {
                assert(e[j].0 == other);
            }
        }
    }
}

/// Loading under an alias already loaded keeps every alias in its place and
/// the number of entries; loading under a new alias appends it last.
pub proof fn lemma_insert_keys<X>(e: Seq<(Seq<char>, X)>, k: Seq<char>, v: X)
    requires
        keys_unique(e),
    ensures
        has_key(e, k) ==> entry_keys(entries_insert(e, k, v)) == entry_keys(e),
        !has_key(e, k) ==> entry_keys(entries_insert(e, k, v)) == entry_keys(e).push(k),
        has_key(entries_insert(e, k, v), k),
{
    if has_key(e, k) {
        let i = key_index(e, k);
        assert(entry_keys(entries_insert(e, k, v)) =~= entry_keys(e));
        assert(entries_insert(e, k, v)[i].0 == k);
    } else {
        assert(entry_keys(entries_insert(e, k, v)) =~= entry_keys(e).push(k));
        assert(entries_insert(e, k, v)[e.len() as int].0 == k);
    }
}

} // verus!
