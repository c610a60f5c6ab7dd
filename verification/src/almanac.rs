//! The Almanac: every loaded kernel and data set, by alias and in loading
//! order, and the searches over them.
use indexmap::IndexMap;
use std::collections::HashMap;
use vstd::prelude::*;
use vstd::string::*;

use crate::domain::{
    domain, domain_and_gap, domain_map, domains_of, max_end, min_start, spec_domain_and_gap,
    with_id, SummaryRecord,
};
use crate::text::{decimal, push_decimal};
use crate::errors::{AlmanacError, DAFError, EphemerisError, OrientationError};
use crate::registry::{
    daf_entries, daf_map_get_index, daf_map_get_index_of, daf_map_insert, daf_map_len,
    daf_map_new, daf_map_shift_remove, daf_map_swap_remove, dataset_entries,
    dataset_map_get_index, dataset_map_insert, dataset_map_len, dataset_map_new, entries_insert,
    entries_shift_remove, entries_swap_remove, entry_keys, has_key, key_index, keys_unique, DafKernel,
    DataSetIndex,
};

verus! {

/// An Almanac contains all of the loaded SPICE and ANISE data, each kind in
/// an ordered map from alias to kernel.
pub struct Almanac {
    /// NAIF SPK kernels.
    pub spk_data: IndexMap<String, DafKernel>,
    /// NAIF BPC kernels.
    pub bpc_data: IndexMap<String, DafKernel>,
    /// Data sets of planetary data.
    pub planetary_data: IndexMap<String, DataSetIndex>,
    /// Data sets of spacecraft data.
    pub spacecraft_data: IndexMap<String, DataSetIndex>,
    /// Data sets of Euler parameters.
    pub euler_param_data: IndexMap<String, DataSetIndex>,
    /// Data sets of locations.
    pub location_data: IndexMap<String, DataSetIndex>,
    /// Data sets of instruments.
    pub instrument_data: IndexMap<String, DataSetIndex>,
}

/// The summaries of the loaded kernels in search order: the most recently
/// loaded kernel first, the summaries of each kernel in file order.
pub open spec fn loaded_rev(e: Seq<(Seq<char>, Seq<SummaryRecord>)>) -> Seq<SummaryRecord>
    decreases e.len(),
{
    if e.len() == 0 {
        seq![]
    } else {
        loaded_rev(e.skip(1)) + e[0].1
    }
}

/// The data sets of two Almanacs are the same.
pub open spec fn same_datasets(a: Almanac, b: Almanac) -> bool {
    &&& a.planetary_data == b.planetary_data
    &&& a.spacecraft_data == b.spacecraft_data
    &&& a.euler_param_data == b.euler_param_data
    &&& a.location_data == b.location_data
    &&& a.instrument_data == b.instrument_data
}

/// Replacing the kernel of an alias in place, then, where the new alias
/// differs, moving that entry last under the new alias.
pub open spec fn entries_swap_kernel<X>(
    e: Seq<(Seq<char>, X)>,
    alias: Seq<char>,
    v: X,
    new_alias: Seq<char>,
) -> Seq<(Seq<char>, X)> {
    let replaced = entries_insert(e, alias, v);
    if alias == new_alias {
        replaced
    } else {
        entries_insert(entries_shift_remove(replaced, alias), new_alias, v)
    }
}

impl Almanac {
    /// The loaded SPKs, by alias, in loading order.
    pub open spec fn spk(&self) -> Seq<(Seq<char>, Seq<SummaryRecord>)> {
        daf_entries(self.spk_data)
    }

    /// The loaded BPCs, by alias, in loading order.
    pub open spec fn bpc(&self) -> Seq<(Seq<char>, Seq<SummaryRecord>)> {
        daf_entries(self.bpc_data)
    }

    /// No map of the Almanac holds an alias twice.
    pub open spec fn wf(&self) -> bool {
        &&& keys_unique(daf_entries(self.spk_data))
        &&& keys_unique(daf_entries(self.bpc_data))
        &&& keys_unique(dataset_entries(self.planetary_data))
        &&& keys_unique(dataset_entries(self.spacecraft_data))
        &&& keys_unique(dataset_entries(self.euler_param_data))
        &&& keys_unique(dataset_entries(self.location_data))
        &&& keys_unique(dataset_entries(self.instrument_data))
    }
}

impl Default for Almanac {
    /// An empty Almanac.
    fn default() -> (r: Self)
        ensures
            r.wf(),
            r.spk().len() == 0,
            r.bpc().len() == 0,
            dataset_entries(r.planetary_data).len() == 0,
            dataset_entries(r.spacecraft_data).len() == 0,
            dataset_entries(r.euler_param_data).len() == 0,
            dataset_entries(r.location_data).len() == 0,
            dataset_entries(r.instrument_data).len() == 0,
    {
        Almanac {
            spk_data: daf_map_new(),
            bpc_data: daf_map_new(),
            planetary_data: dataset_map_new(),
            spacecraft_data: dataset_map_new(),
            euler_param_data: dataset_map_new(),
            location_data: dataset_map_new(),
            instrument_data: dataset_map_new(),
        }
    }
}

/// The system time, written by `hifitime::Epoch`'s `Display`, or the default
/// epoch where the time is not available (`Epoch::now`, then
/// `unwrap_or_default` and `to_string`): the alias of a kernel loaded without
/// one. Nothing is stated of it, for it depends on the clock.
#[verifier::external_body]
fn current_epoch_alias() -> String {
    hifitime::Epoch::now().unwrap_or_default().to_string()
}

/// The alias to load under: the one given, else the current epoch.
fn alias_or_now(alias: Option<String>) -> (r: String)
    ensures
        alias matches Some(a) ==> r@ == a@,
{
    match alias {
        Some(a) => a,
        None => current_epoch_alias(),
    }
}

proof fn lemma_loaded_rev_step(e: Seq<(Seq<char>, Seq<SummaryRecord>)>, k: int)
    requires
        0 < k <= e.len(),
    ensures
        loaded_rev(e.skip(k - 1)) == loaded_rev(e.skip(k)) + e[k - 1].1,
{
    let t = e.skip(k - 1);
    assert(t.skip(1) =~= e.skip(k));
    assert(t[0] == e[k - 1]);
}

/// The summaries of all loaded kernels of a map, in search order.
fn summaries_in_search_order(m: &IndexMap<String, DafKernel>) -> (r: Vec<SummaryRecord>)
    ensures
        r@ == loaded_rev(daf_entries(*m)),
{
    let ghost e = daf_entries(*m);
    let n = daf_map_len(m);
    let mut out: Vec<SummaryRecord> = Vec::new();
    let mut k: usize = n;
    assert(e.skip(n as int).len() == 0);
    while k > 0
        invariant
            k <= n,
            n == e.len(),
            e == daf_entries(*m),
            out@ == loaded_rev(e.skip(k as int)),
        decreases k,
    {
        match daf_map_get_index(m, k - 1) {
            Some((_, kernel)) => {
                let ghost base = out@;
                let mut j: usize = 0;
                while j < kernel.summaries.len()
                    invariant
                        j <= kernel.summaries.len(),
                        out@ == base + kernel.summaries@.take(j as int),
                    decreases kernel.summaries.len() - j,
                {
                    out.push(kernel.summaries[j]);
                    j = j + 1;
                    assert(out@ =~= base + kernel.summaries@.take(j as int));
                }
                assert(kernel.summaries@.take(j as int) =~= kernel.summaries@);
                proof {
                    lemma_loaded_rev_step(e, k as int);
                }
            },
            None => {},
        }
        k = k - 1;
    }
    assert(e.skip(0) =~= e);
    out
}

/// The summaries of one ID, in order.
fn filter_id(s: &Vec<SummaryRecord>, id: i32) -> (r: Vec<SummaryRecord>)
    ensures
        r@ == with_id(s@, id),
{
    let mut out: Vec<SummaryRecord> = Vec::new();
    let mut i: usize = 0;
    assert(s@.take(0).len() == 0);
    while i < s.len()
        invariant
            i <= s.len(),
            out@ == with_id(s@.take(i as int), id),
        decreases s.len() - i,
    {
        assert(s@.take(i + 1).drop_last() =~= s@.take(i as int));
        if s[i].id == id {
            out.push(s[i]);
        }
        i = i + 1;
    }
    assert(s@.take(s.len() as int) =~= s@);
    out
}

impl Almanac {
    /// A new Almanac holding only the provided SPK.
    pub fn from_spk(spk: DafKernel) -> (r: Self)
        ensures
            r.wf(),
            r.spk().len() == 1,
            r.spk()[0].1 == spk@,
            r.bpc().len() == 0,
            dataset_entries(r.planetary_data).len() == 0,
            dataset_entries(r.spacecraft_data).len() == 0,
            dataset_entries(r.euler_param_data).len() == 0,
            dataset_entries(r.location_data).len() == 0,
            dataset_entries(r.instrument_data).len() == 0,
    {
        let me = Self::default();
        me.with_spk(spk)
    }

    /// Loads an SPK, under the current epoch as its alias.
    pub fn with_spk(self, spk: DafKernel) -> (r: Self)
        requires
            self.wf(),
        ensures
            r.wf(),
            exists|k: Seq<char>| r.spk() == #[trigger] entries_insert(self.spk(), k, spk@),
            r.bpc_data == self.bpc_data,
            same_datasets(r, self),
    {
        self.with_spk_as(spk, None)
    }

    /// Loads an SPK under the provided alias, or the current epoch if none is
    /// given. An SPK already loaded under that alias is replaced in its place
    /// in the loading order; a new alias is loaded last.
    pub fn with_spk_as(self, spk: DafKernel, alias: Option<String>) -> (r: Self)
        requires
            self.wf(),
        ensures
            r.wf(),
            alias matches Some(a) ==> r.spk() == entries_insert(self.spk(), a@, spk@),
            exists|k: Seq<char>| r.spk() == #[trigger] entries_insert(self.spk(), k, spk@),
            r.bpc_data == self.bpc_data,
            same_datasets(r, self),
    {
        let mut me = self;
        let alias = alias_or_now(alias);
        let ghost k = alias@;
        let _ = daf_map_insert(&mut me.spk_data, alias, spk);
        assert(me.spk() == entries_insert(self.spk(), k, spk@));
        me
    }

    /// Unloads the SPK of the provided alias: the most recently loaded SPK
    /// takes its place in the loading order.
    pub fn spk_unload(&mut self, alias: &str) -> (r: Result<(), EphemerisError>)
        requires
            old(self).wf(),
        ensures
            final(self).wf(),
            final(self).spk() == entries_swap_remove(old(self).spk(), alias@),
            final(self).bpc_data == old(self).bpc_data,
            same_datasets(*final(self), *old(self)),
            r is Ok <==> has_key(old(self).spk(), alias@),
            r matches Err(e) ==> (e matches EphemerisError::AliasNotFound { alias: a, action } && a@
                == alias@ && action == "unload ephemeris"),
    {
        match daf_map_swap_remove(&mut self.spk_data, alias) {
            None => {
                let mut a = String::new();
                a.append(alias);
                Err(EphemerisError::AliasNotFound { alias: a, action: "unload ephemeris" })
            },
            Some(_) => Ok(()),
        }
    }

    /// The number of loaded SPKs.
    pub fn num_loaded_spk(&self) -> (r: usize)
        ensures
            r == self.spk().len(),
    {
        daf_map_len(&self.spk_data)
    }

    /// The summaries of `id` in all loaded SPKs, in the order in which they
    /// are used: the most recently loaded SPK first.
    pub fn spk_summaries(&self, id: i32) -> (r: Result<Vec<SummaryRecord>, EphemerisError>)
        ensures
            with_id(loaded_rev(self.spk()), id).len() > 0 ==> (r matches Ok(v) && v@ == with_id(
                loaded_rev(self.spk()),
                id,
            )),
            with_id(loaded_rev(self.spk()), id).len() == 0 ==> r == Err::<Vec<SummaryRecord>, _>(
                EphemerisError::SPK {
                    action: "searching for SPK summary",
                    source: DAFError::SummaryIdError { kind: "SPK", id },
                },
            ),
    {
        let all = summaries_in_search_order(&self.spk_data);
        let summaries = filter_id(&all, id);
        if summaries.len() == 0 {
            Err(
                EphemerisError::SPK {
                    action: "searching for SPK summary",
                    source: DAFError::SummaryIdError { kind: "SPK", id },
                },
            )
        } else {
            Ok(summaries)
        }
    }

    /// The domain of `id` in the loaded SPKs and whether its coverage has a
    /// gap.
    pub fn spk_domain_and_gap(&self, id: i32) -> (r: Result<(i128, i128, bool), EphemerisError>)
        ensures
            with_id(loaded_rev(self.spk()), id).len() > 0 ==> r == Ok::<_, EphemerisError>(
                spec_domain_and_gap(with_id(loaded_rev(self.spk()), id)),
            ),
            with_id(loaded_rev(self.spk()), id).len() == 0 ==> r == Err::<(i128, i128, bool), _>(
                EphemerisError::SPK {
                    action: "searching for SPK summary",
                    source: DAFError::SummaryIdError { kind: "SPK", id },
                },
            ),
    {
        let summaries = match self.spk_summaries(id) {
            Ok(s) => s,
            Err(e) => {
                return Err(e);
            },
        };
        Ok(domain_and_gap(&summaries))
    }

    /// The domain of `id` in the loaded SPKs: the earliest start and the
    /// latest end of its summaries.
    pub fn spk_domain(&self, id: i32) -> (r: Result<(i128, i128), EphemerisError>)
        ensures
            with_id(loaded_rev(self.spk()), id).len() > 0 ==> r == Ok::<_, EphemerisError>(
                (
                    min_start(with_id(loaded_rev(self.spk()), id)),
                    max_end(with_id(loaded_rev(self.spk()), id)),
                ),
            ),
            with_id(loaded_rev(self.spk()), id).len() == 0 ==> r == Err::<(i128, i128), _>(
                EphemerisError::SPK {
                    action: "searching for SPK summary",
                    source: DAFError::SummaryIdError { kind: "SPK", id },
                },
            ),
    {
        match self.spk_domain_and_gap(id) {
            Ok((start, end, _)) => Ok((start, end)),
            Err(e) => Err(e),
        }
    }

    /// The domain of each ID of the loaded SPKs.
    pub fn spk_domains(&self) -> (r: Result<HashMap<i32, (i128, i128)>, EphemerisError>)
        ensures
            self.spk().len() == 0 ==> r matches Err(EphemerisError::NoEphemerisLoaded),
            self.spk().len() > 0 ==> (r matches Ok(m) && m@ == domain_map(loaded_rev(self.spk()))),
    {
        if self.num_loaded_spk() == 0 {
            return Err(EphemerisError::NoEphemerisLoaded);
        }
        let all = summaries_in_search_order(&self.spk_data);
        Ok(domains_of(&all))
    }
}

impl Almanac {
    /// A new Almanac holding only the provided BPC.
    pub fn from_bpc(bpc: DafKernel) -> (r: Self)
        ensures
            r.wf(),
            r.bpc().len() == 1,
            r.bpc()[0].1 == bpc@,
            r.spk().len() == 0,
            dataset_entries(r.planetary_data).len() == 0,
            dataset_entries(r.spacecraft_data).len() == 0,
            dataset_entries(r.euler_param_data).len() == 0,
            dataset_entries(r.location_data).len() == 0,
            dataset_entries(r.instrument_data).len() == 0,
    {
        let me = Self::default();
        me.with_bpc(bpc)
    }

    /// Loads a BPC, under the current epoch as its alias.
    pub fn with_bpc(self, bpc: DafKernel) -> (r: Self)
        requires
            self.wf(),
        ensures
            r.wf(),
            exists|k: Seq<char>| r.bpc() == #[trigger] entries_insert(self.bpc(), k, bpc@),
            r.spk_data == self.spk_data,
            same_datasets(r, self),
    {
        self.with_bpc_as(bpc, None)
    }

    /// Loads a BPC under the provided alias, or the current epoch if none is
    /// given. A BPC already loaded under that alias is replaced in its place
    /// in the loading order; a new alias is loaded last.
    pub fn with_bpc_as(self, bpc: DafKernel, alias: Option<String>) -> (r: Self)
        requires
            self.wf(),
        ensures
            r.wf(),
            alias matches Some(a) ==> r.bpc() == entries_insert(self.bpc(), a@, bpc@),
            exists|k: Seq<char>| r.bpc() == #[trigger] entries_insert(self.bpc(), k, bpc@),
            r.spk_data == self.spk_data,
            same_datasets(r, self),
    {
        let mut me = self;
        let alias = alias_or_now(alias);
        let ghost k = alias@;
        let _ = daf_map_insert(&mut me.bpc_data, alias, bpc);
        assert(me.bpc() == entries_insert(self.bpc(), k, bpc@));
        me
    }

    /// Unloads the BPC of the provided alias: the most recently loaded BPC
    /// takes its place in the loading order.
    pub fn bpc_unload(&mut self, alias: &str) -> (r: Result<(), OrientationError>)
        requires
            old(self).wf(),
        ensures
            final(self).wf(),
            final(self).bpc() == entries_swap_remove(old(self).bpc(), alias@),
            final(self).spk_data == old(self).spk_data,
            same_datasets(*final(self), *old(self)),
            r is Ok <==> has_key(old(self).bpc(), alias@),
            r matches Err(e) ==> (e matches OrientationError::AliasNotFound { alias: a, action } && a@
                == alias@ && action == "unload BPC"),
    {
        match daf_map_swap_remove(&mut self.bpc_data, alias) {
            None => {
                let mut a = String::new();
                a.append(alias);
                Err(OrientationError::AliasNotFound { alias: a, action: "unload BPC" })
            },
            Some(_) => Ok(()),
        }
    }

    /// The number of loaded BPCs.
    pub fn num_loaded_bpc(&self) -> (r: usize)
        ensures
            r == self.bpc().len(),
    {
        daf_map_len(&self.bpc_data)
    }

    /// The summaries of `id` in all loaded BPCs, in the order in which they
    /// are used: the most recently loaded BPC first.
    pub fn bpc_summaries(&self, id: i32) -> (r: Result<Vec<SummaryRecord>, OrientationError>)
        ensures
            with_id(loaded_rev(self.bpc()), id).len() > 0 ==> (r matches Ok(v) && v@ == with_id(
                loaded_rev(self.bpc()),
                id,
            )),
            with_id(loaded_rev(self.bpc()), id).len() == 0 ==> r == Err::<Vec<SummaryRecord>, _>(
                OrientationError::BPC {
                    action: "searching for BPC summary",
                    source: DAFError::SummaryIdError { kind: "BPC", id },
                },
            ),
    {
        let all = summaries_in_search_order(&self.bpc_data);
        let summaries = filter_id(&all, id);
        if summaries.len() == 0 {
            Err(
                OrientationError::BPC {
                    action: "searching for BPC summary",
                    source: DAFError::SummaryIdError { kind: "BPC", id },
                },
            )
        } else {
            Ok(summaries)
        }
    }

    /// The domain of `id` in the loaded BPCs: the earliest start and the
    /// latest end of its summaries.
    pub fn bpc_domain(&self, id: i32) -> (r: Result<(i128, i128), OrientationError>)
        ensures
            with_id(loaded_rev(self.bpc()), id).len() > 0 ==> r == Ok::<_, OrientationError>(
                (
                    min_start(with_id(loaded_rev(self.bpc()), id)),
                    max_end(with_id(loaded_rev(self.bpc()), id)),
                ),
            ),
            with_id(loaded_rev(self.bpc()), id).len() == 0 ==> r == Err::<(i128, i128), _>(
                OrientationError::BPC {
                    action: "searching for BPC summary",
                    source: DAFError::SummaryIdError { kind: "BPC", id },
                },
            ),
    {
        let summaries = match self.bpc_summaries(id) {
            Ok(s) => s,
            Err(e) => {
                return Err(e);
            },
        };
        Ok(domain(&summaries))
    }

    /// The domain of each ID of the loaded BPCs.
    pub fn bpc_domains(&self) -> (r: Result<HashMap<i32, (i128, i128)>, OrientationError>)
        ensures
            self.bpc().len() == 0 ==> r matches Err(OrientationError::NoOrientationsLoaded),
            self.bpc().len() > 0 ==> (r matches Ok(m) && m@ == domain_map(loaded_rev(self.bpc()))),
    {
        if self.num_loaded_bpc() == 0 {
            return Err(OrientationError::NoOrientationsLoaded);
        }
        let all = summaries_in_search_order(&self.bpc_data);
        Ok(domains_of(&all))
    }
}

/// The message of a swap whose alias is not loaded: "no <kind> alias `<alias>`".
pub open spec fn no_alias_message(kind: Seq<char>, alias: Seq<char>) -> Seq<char> {
    "no "@ + kind + " alias `"@ + alias + "`"@
}

fn no_alias_error(kind: &str, alias: &str) -> (r: AlmanacError)
    ensures
        r matches AlmanacError::GenericError { err } && err@ == no_alias_message(kind@, alias@),
{
    let mut err = String::new();
    err.append("no ");
    err.append(kind);
    err.append(" alias `");
    err.append(alias);
    err.append("`");
    AlmanacError::GenericError { err }
}

impl Almanac {
    /// Replaces the SPK loaded under `alias` by `new_spk`, in its place in the
    /// loading order; where `new_alias` differs from `alias`, the entry is
    /// then renamed, which moves it last. Nothing changes where no SPK is
    /// loaded under `alias`.
    pub fn spk_swap(&mut self, alias: &str, new_spk: DafKernel, new_alias: String) -> (r: Result<(), AlmanacError>)
        requires
            old(self).wf(),
        ensures
            final(self).wf(),
            r is Ok <==> has_key(old(self).spk(), alias@),
            r is Ok ==> final(self).spk() == entries_swap_kernel(old(self).spk(), alias@, new_spk@, new_alias@),
            r matches Err(e) ==> (e matches AlmanacError::GenericError { err } && err@ == no_alias_message(
                "SPK"@,
                alias@,
            )),
            r is Err ==> final(self).spk_data == old(self).spk_data,
            final(self).bpc_data == old(self).bpc_data,
            same_datasets(*final(self), *old(self)),
    {
        if daf_map_get_index_of(&self.spk_data, alias).is_none() {
            return Err(no_alias_error("SPK", alias));
        }
        let ghost v = new_spk@;
        let mut key = String::new();
        key.append(alias);
        let same = key == new_alias;
        let _ = daf_map_insert(&mut self.spk_data, key, new_spk);
        if !same {
            match daf_map_shift_remove(&mut self.spk_data, alias) {
                Some(entry) => {
                    let _ = daf_map_insert(&mut self.spk_data, new_alias, entry);
                },
                None => {},
            }
        }
        proof {
            lemma_swap_kernel_present(old(self).spk(), alias@, v, new_alias@);
        }
        Ok(())
    }

    /// Replaces the BPC loaded under `alias` by `new_bpc`, in its place in the
    /// loading order; where `new_alias` differs from `alias`, the entry is
    /// then renamed, which moves it last. Nothing changes where no BPC is
    /// loaded under `alias`.
    pub fn bpc_swap(&mut self, alias: &str, new_bpc: DafKernel, new_alias: String) -> (r: Result<(), AlmanacError>)
        requires
            old(self).wf(),
        ensures
            final(self).wf(),
            r is Ok <==> has_key(old(self).bpc(), alias@),
            r is Ok ==> final(self).bpc() == entries_swap_kernel(old(self).bpc(), alias@, new_bpc@, new_alias@),
            r matches Err(e) ==> (e matches AlmanacError::GenericError { err } && err@ == no_alias_message(
                "BPC"@,
                alias@,
            )),
            r is Err ==> final(self).bpc_data == old(self).bpc_data,
            final(self).spk_data == old(self).spk_data,
            same_datasets(*final(self), *old(self)),
    {
        if daf_map_get_index_of(&self.bpc_data, alias).is_none() {
            return Err(no_alias_error("BPC", alias));
        }
        let ghost v = new_bpc@;
        let mut key = String::new();
        key.append(alias);
        let same = key == new_alias;
        let _ = daf_map_insert(&mut self.bpc_data, key, new_bpc);
        if !same {
            match daf_map_shift_remove(&mut self.bpc_data, alias) {
                Some(entry) => {
                    let _ = daf_map_insert(&mut self.bpc_data, new_alias, entry);
                },
                None => {},
            }
        }
        proof {
            lemma_swap_kernel_present(old(self).bpc(), alias@, v, new_alias@);
        }
        Ok(())
    }
}

/// After the kernel of a present alias is replaced, the alias is still
/// present and its entry holds the new kernel.
proof fn lemma_swap_kernel_present<X>(e: Seq<(Seq<char>, X)>, alias: Seq<char>, v: X, new_alias: Seq<char>)
    requires
        keys_unique(e),
        has_key(e, alias),
    ensures
        has_key(entries_insert(e, alias, v), alias),
        entries_insert(e, alias, v)[key_index(entries_insert(e, alias, v), alias)].1 == v,
{
    let i = key_index(e, alias);
    let f = entries_insert(e, alias, v);
    assert(f[i].0 == alias);
    let j = key_index(f, alias);
    assert(f[j].0 == alias);
    if j != i {
        assert(e[j].0 == alias);
    }
}

/// The views of a sequence of strings.
pub open spec fn strings_view(v: Seq<String>) -> Seq<Seq<char>> {
    v.map_values(|s: String| s@)
}

/// An optional flag, with a default where it is not given.
pub open spec fn flag_or(flag: Option<bool>, default: bool) -> bool {
    match flag {
        Some(b) => b,
        None => default,
    }
}

fn flag_or_exec(flag: Option<bool>, default: bool) -> (r: bool)
    ensures
        r == flag_or(flag, default),
{
    match flag {
        Some(b) => b,
        None => default,
    }
}

/// The aliases listed by `list_kernels`: where no flag is set, every kind but
/// the instruments; else those whose flag is set (spacecraft data only when
/// its own flag is set, for it does not count among the others).
pub open spec fn listed_aliases(
    a: Almanac,
    spk: Option<bool>,
    bpc: Option<bool>,
    planetary: Option<bool>,
    spacecraft: Option<bool>,
    eulerparams: Option<bool>,
    locations: Option<bool>,
) -> Seq<Seq<char>> {
    let print_any = flag_or(spk, false) || flag_or(bpc, false) || flag_or(planetary, false)
        || flag_or(eulerparams, false) || flag_or(locations, false);
    (if flag_or(spk, !print_any) { entry_keys(a.spk()) } else { seq![] })
        + (if flag_or(bpc, !print_any) { entry_keys(a.bpc()) } else { seq![] })
        + (if flag_or(planetary, !print_any) { entry_keys(dataset_entries(a.planetary_data)) } else { seq![] })
        + (if flag_or(spacecraft, !print_any) { entry_keys(dataset_entries(a.spacecraft_data)) } else { seq![] })
        + (if flag_or(eulerparams, !print_any) { entry_keys(dataset_entries(a.euler_param_data)) } else { seq![] })
        + (if flag_or(locations, !print_any) { entry_keys(dataset_entries(a.location_data)) } else { seq![] })
}

fn push_daf_aliases(out: &mut Vec<String>, m: &IndexMap<String, DafKernel>)
    ensures
        strings_view(final(out)@) == strings_view(old(out)@) + entry_keys(daf_entries(*m)),
{
    let ghost base = strings_view(out@);
    let ghost e = daf_entries(*m);
    let n = daf_map_len(m);
    let mut i: usize = 0;
    while i < n
        invariant
            i <= n,
            n == e.len(),
            e == daf_entries(*m),
            strings_view(out@) == base + entry_keys(e).take(i as int),
        decreases n - i,
    {
        match daf_map_get_index(m, i) {
            Some((k, _)) => {
                let ghost before = out@;
                let c = k.clone();
                out.push(c);
                assert(strings_view(out@) =~= strings_view(before).push(c@));
                assert(entry_keys(e).take(i + 1) =~= entry_keys(e).take(i as int).push(e[i as int].0));
            },
            None => {},
        }
        i = i + 1;
    }
    assert(entry_keys(e).take(n as int) =~= entry_keys(e));
}

fn push_dataset_aliases(out: &mut Vec<String>, m: &IndexMap<String, DataSetIndex>)
    ensures
        strings_view(final(out)@) == strings_view(old(out)@) + entry_keys(dataset_entries(*m)),
{
    let ghost base = strings_view(out@);
    let ghost e = dataset_entries(*m);
    let n = dataset_map_len(m);
    let mut i: usize = 0;
    while i < n
        invariant
            i <= n,
            n == e.len(),
            e == dataset_entries(*m),
            strings_view(out@) == base + entry_keys(e).take(i as int),
        decreases n - i,
    {
        match dataset_map_get_index(m, i) {
            Some((k, _)) => {
                let ghost before = out@;
                let c = k.clone();
                out.push(c);
                assert(strings_view(out@) =~= strings_view(before).push(c@));
                assert(entry_keys(e).take(i + 1) =~= entry_keys(e).take(i as int).push(e[i as int].0));
            },
            None => {},
        }
        i = i + 1;
    }
    assert(entry_keys(e).take(n as int) =~= entry_keys(e));
}

impl Almanac {
    /// The aliases of the loaded kernels, kind by kind, each in loading order.
    pub fn list_kernels(
        &self,
        spk: Option<bool>,
        bpc: Option<bool>,
        planetary: Option<bool>,
        spacecraft: Option<bool>,
        eulerparams: Option<bool>,
        locations: Option<bool>,
    ) -> (r: Vec<String>)
        ensures
            strings_view(r@) == listed_aliases(*self, spk, bpc, planetary, spacecraft, eulerparams, locations),
    {
        let print_any = flag_or_exec(spk, false) || flag_or_exec(bpc, false) || flag_or_exec(planetary, false)
            || flag_or_exec(eulerparams, false) || flag_or_exec(locations, false);
        let mut kernels: Vec<String> = Vec::new();
        let ghost acc: Seq<Seq<char>> = seq![];
        assert(strings_view(kernels@) =~= acc);
        if flag_or_exec(spk, !print_any) {
            push_daf_aliases(&mut kernels, &self.spk_data);
        }
        if flag_or_exec(bpc, !print_any) {
            push_daf_aliases(&mut kernels, &self.bpc_data);
        }
        if flag_or_exec(planetary, !print_any) {
            push_dataset_aliases(&mut kernels, &self.planetary_data);
        }
        if flag_or_exec(spacecraft, !print_any) {
            push_dataset_aliases(&mut kernels, &self.spacecraft_data);
        }
        if flag_or_exec(eulerparams, !print_any) {
            push_dataset_aliases(&mut kernels, &self.euler_param_data);
        }
        if flag_or_exec(locations, !print_any) {
            push_dataset_aliases(&mut kernels, &self.location_data);
        }
        assert(strings_view(kernels@) =~= listed_aliases(*self, spk, bpc, planetary, spacecraft, eulerparams, locations));
        kernels
    }
}

/// Loads a data set into a map under the alias given, else the current epoch.
fn load_dataset(m: &mut IndexMap<String, DataSetIndex>, d: DataSetIndex, alias: Option<String>)
    requires
        keys_unique(dataset_entries(*old(m))),
    ensures
        keys_unique(dataset_entries(*final(m))),
        alias matches Some(a) ==> dataset_entries(*final(m)) == entries_insert(dataset_entries(*old(m)), a@, d@),
        exists|k: Seq<char>| dataset_entries(*final(m)) == #[trigger] entries_insert(dataset_entries(*old(m)), k, d@),
{
    let alias = alias_or_now(alias);
    let ghost k = alias@;
    let ghost v = d@;
    let _ = dataset_map_insert(m, alias, d);
    assert(dataset_entries(*m) == entries_insert(dataset_entries(*old(m)), k, v));
}

impl Almanac {
    /// Loads planetary data, under the current epoch as its alias.
    pub fn with_planetary_data(self, planetary_data: DataSetIndex) -> (r: Self)
        requires
            self.wf(),
        ensures
            r.wf(),
            exists|k: Seq<char>| dataset_entries(r.planetary_data) == #[trigger] entries_insert(dataset_entries(self.planetary_data), k, planetary_data@),
            r.spk_data == self.spk_data,
            r.bpc_data == self.bpc_data,
            r.spacecraft_data == self.spacecraft_data,
            r.euler_param_data == self.euler_param_data,
            r.location_data == self.location_data,
            r.instrument_data == self.instrument_data,
    {
        self.with_planetary_data_as(planetary_data, None)
    }

    /// Loads planetary data under the provided alias, or the current epoch if none is
    /// given; data already loaded under that alias is replaced in its place.
    pub fn with_planetary_data_as(self, planetary_data: DataSetIndex, alias: Option<String>) -> (r: Self)
        requires
            self.wf(),
        ensures
            r.wf(),
            alias matches Some(a) ==> dataset_entries(r.planetary_data) == entries_insert(dataset_entries(self.planetary_data), a@, planetary_data@),
            exists|k: Seq<char>| dataset_entries(r.planetary_data) == #[trigger] entries_insert(dataset_entries(self.planetary_data), k, planetary_data@),
            r.spk_data == self.spk_data,
            r.bpc_data == self.bpc_data,
            r.spacecraft_data == self.spacecraft_data,
            r.euler_param_data == self.euler_param_data,
            r.location_data == self.location_data,
            r.instrument_data == self.instrument_data,
    {
        let mut me = self;
        load_dataset(&mut me.planetary_data, planetary_data, alias);
        me
    }

    /// Loads spacecraft data, under the current epoch as its alias.
    pub fn with_spacecraft_data(self, spacecraft_data: DataSetIndex) -> (r: Self)
        requires
            self.wf(),
        ensures
            r.wf(),
            exists|k: Seq<char>| dataset_entries(r.spacecraft_data) == #[trigger] entries_insert(dataset_entries(self.spacecraft_data), k, spacecraft_data@),
            r.spk_data == self.spk_data,
            r.bpc_data == self.bpc_data,
            r.planetary_data == self.planetary_data,
            r.euler_param_data == self.euler_param_data,
            r.location_data == self.location_data,
            r.instrument_data == self.instrument_data,
    {
        self.with_spacecraft_data_as(spacecraft_data, None)
    }

    /// Loads spacecraft data under the provided alias, or the current epoch if none is
    /// given; data already loaded under that alias is replaced in its place.
    pub fn with_spacecraft_data_as(self, spacecraft_data: DataSetIndex, alias: Option<String>) -> (r: Self)
        requires
            self.wf(),
        ensures
            r.wf(),
            alias matches Some(a) ==> dataset_entries(r.spacecraft_data) == entries_insert(dataset_entries(self.spacecraft_data), a@, spacecraft_data@),
            exists|k: Seq<char>| dataset_entries(r.spacecraft_data) == #[trigger] entries_insert(dataset_entries(self.spacecraft_data), k, spacecraft_data@),
            r.spk_data == self.spk_data,
            r.bpc_data == self.bpc_data,
            r.planetary_data == self.planetary_data,
            r.euler_param_data == self.euler_param_data,
            r.location_data == self.location_data,
            r.instrument_data == self.instrument_data,
    {
        let mut me = self;
        load_dataset(&mut me.spacecraft_data, spacecraft_data, alias);
        me
    }

    /// Loads Euler parameter data, under the current epoch as its alias.
    pub fn with_euler_parameters(self, ep_dataset: DataSetIndex) -> (r: Self)
        requires
            self.wf(),
        ensures
            r.wf(),
            exists|k: Seq<char>| dataset_entries(r.euler_param_data) == #[trigger] entries_insert(dataset_entries(self.euler_param_data), k, ep_dataset@),
            r.spk_data == self.spk_data,
            r.bpc_data == self.bpc_data,
            r.planetary_data == self.planetary_data,
            r.spacecraft_data == self.spacecraft_data,
            r.location_data == self.location_data,
            r.instrument_data == self.instrument_data,
    {
        self.with_euler_parameters_as(ep_dataset, None)
    }

    /// Loads Euler parameter data under the provided alias, or the current epoch if none is
    /// given; data already loaded under that alias is replaced in its place.
    pub fn with_euler_parameters_as(self, ep_dataset: DataSetIndex, alias: Option<String>) -> (r: Self)
        requires
            self.wf(),
        ensures
            r.wf(),
            alias matches Some(a) ==> dataset_entries(r.euler_param_data) == entries_insert(dataset_entries(self.euler_param_data), a@, ep_dataset@),
            exists|k: Seq<char>| dataset_entries(r.euler_param_data) == #[trigger] entries_insert(dataset_entries(self.euler_param_data), k, ep_dataset@),
            r.spk_data == self.spk_data,
            r.bpc_data == self.bpc_data,
            r.planetary_data == self.planetary_data,
            r.spacecraft_data == self.spacecraft_data,
            r.location_data == self.location_data,
            r.instrument_data == self.instrument_data,
    {
        let mut me = self;
        load_dataset(&mut me.euler_param_data, ep_dataset, alias);
        me
    }

    /// Loads location data, under the current epoch as its alias.
    pub fn with_location_data(self, loc_dataset: DataSetIndex) -> (r: Self)
        requires
            self.wf(),
        ensures
            r.wf(),
            exists|k: Seq<char>| dataset_entries(r.location_data) == #[trigger] entries_insert(dataset_entries(self.location_data), k, loc_dataset@),
            r.spk_data == self.spk_data,
            r.bpc_data == self.bpc_data,
            r.planetary_data == self.planetary_data,
            r.spacecraft_data == self.spacecraft_data,
            r.euler_param_data == self.euler_param_data,
            r.instrument_data == self.instrument_data,
    {
        self.with_location_data_as(loc_dataset, None)
    }

    /// Loads location data under the provided alias, or the current epoch if none is
    /// given; data already loaded under that alias is replaced in its place.
    pub fn with_location_data_as(self, loc_dataset: DataSetIndex, alias: Option<String>) -> (r: Self)
        requires
            self.wf(),
        ensures
            r.wf(),
            alias matches Some(a) ==> dataset_entries(r.location_data) == entries_insert(dataset_entries(self.location_data), a@, loc_dataset@),
            exists|k: Seq<char>| dataset_entries(r.location_data) == #[trigger] entries_insert(dataset_entries(self.location_data), k, loc_dataset@),
            r.spk_data == self.spk_data,
            r.bpc_data == self.bpc_data,
            r.planetary_data == self.planetary_data,
            r.spacecraft_data == self.spacecraft_data,
            r.euler_param_data == self.euler_param_data,
            r.instrument_data == self.instrument_data,
    {
        let mut me = self;
        load_dataset(&mut me.location_data, loc_dataset, alias);
        me
    }
}

proof fn lemma_loaded_rev_push(e: Seq<(Seq<char>, Seq<SummaryRecord>)>, p: (Seq<char>, Seq<SummaryRecord>))
    ensures
        loaded_rev(e.push(p)) == p.1 + loaded_rev(e),
    decreases e.len(),
{
    if e.len() == 0 {
        assert(e.push(p).skip(1) =~= e);
        assert(loaded_rev(e) =~= Seq::<SummaryRecord>::empty());
        assert(loaded_rev(e.push(p)) =~= p.1 + loaded_rev(e));
    } else {
        assert(e.push(p).skip(1) =~= e.skip(1).push(p));
        lemma_loaded_rev_push(e.skip(1), p);
        assert(loaded_rev(e.push(p)) =~= p.1 + loaded_rev(e));
    }
}

/// The summaries of an ID in a concatenation are those of each part, in order.
pub proof fn lemma_with_id_concat(a: Seq<SummaryRecord>, b: Seq<SummaryRecord>, id: i32)
    ensures
        with_id(a + b, id) == with_id(a, id) + with_id(b, id),
    decreases b.len(),
{
    if b.len() == 0 {
        assert(a + b =~= a);
        assert(with_id(a, id) + with_id(b, id) =~= with_id(a, id));
    } else {
        assert((a + b).drop_last() =~= a + b.drop_last());
        lemma_with_id_concat(a, b.drop_last(), id);
        assert((a + b).last() == b.last());
        if b.last().id == id {
            assert(with_id(a + b, id) =~= with_id(a, id) + with_id(b, id));
        } else {
            assert(with_id(a + b, id) =~= with_id(a, id) + with_id(b, id));
        }
    }
}

/// A kernel loaded under a new alias is searched first: the summaries of any
/// ID are those of the new kernel, then those of the kernels loaded before.
pub proof fn lemma_new_kernel_searched_first(
    e: Seq<(Seq<char>, Seq<SummaryRecord>)>,
    alias: Seq<char>,
    v: Seq<SummaryRecord>,
    id: i32,
)
    requires
        !has_key(e, alias),
    ensures
        loaded_rev(entries_insert(e, alias, v)) == v + loaded_rev(e),
        with_id(loaded_rev(entries_insert(e, alias, v)), id) == with_id(v, id) + with_id(loaded_rev(e), id),
{
    lemma_loaded_rev_push(e, (alias, v));
    lemma_with_id_concat(v, loaded_rev(e), id);
}

/// The domains of all IDs agree with the domain of each ID: an ID has a
/// domain in the map exactly when some loaded summary describes it, and that
/// domain is its earliest start and latest end, which bound every summary of
/// the ID.
pub proof fn lemma_domains_agree(s: Seq<SummaryRecord>, id: i32)
    ensures
        domain_map(s).contains_key(id) <==> with_id(s, id).len() > 0,
        domain_map(s).contains_key(id) ==> domain_map(s)[id] == (
            min_start(with_id(s, id)),
            max_end(with_id(s, id)),
        ),
        domain_map(s).contains_key(id) ==> (domain_map(s)[id].0, domain_map(s)[id].1) == (
            spec_domain_and_gap(with_id(s, id)).0,
            spec_domain_and_gap(with_id(s, id)).1,
        ),
        domain_map(s).contains_key(id) ==> forall|i: int|
            0 <= i < with_id(s, id).len() ==> domain_map(s)[id].0 <= (#[trigger] with_id(s, id)[i]).start
                && with_id(s, id)[i].end <= domain_map(s)[id].1,
{
    if with_id(s, id).len() > 0 {
        crate::domain::lemma_domain_bounds(with_id(s, id));
    }
}

/// Swapping the kernel of a loaded alias keeps the loading order: under the
/// same alias every alias keeps its place; under a new alias the entry leaves
/// its place, the others keep their order, and the new alias comes last.
pub proof fn lemma_swap_keeps_order<X>(e: Seq<(Seq<char>, X)>, alias: Seq<char>, v: X, new_alias: Seq<char>)
    requires
        keys_unique(e),
        has_key(e, alias),
    ensures
        alias == new_alias ==> entry_keys(entries_swap_kernel(e, alias, v, new_alias)) == entry_keys(e),
        !has_key(e, new_alias) ==> entry_keys(entries_swap_kernel(e, alias, v, new_alias)) == entry_keys(
            e,
        ).remove(key_index(e, alias)).push(new_alias),
{
    let i = key_index(e, alias);
    let f = entries_insert(e, alias, v);
    crate::registry::lemma_insert_keys(e, alias, v);
    assert(f =~= e.update(i, (alias, v)));
    if alias != new_alias {
        assert(has_key(f, alias));
        let j = key_index(f, alias);
        if j != i {
            assert(f[j].0 == e[j].0);
        }
        assert(j == i);
        let g = f.remove(i);
        assert(entries_shift_remove(f, alias) == g);
        if !has_key(e, new_alias) {
            if has_key(g, new_alias) {
                let m = choose|m: int| 0 <= m < g.len() && #[trigger] g[m].0 == new_alias;
                if m < i {
                    assert(e[m].0 == new_alias);
                } else {
                    assert(e[m + 1].0 == new_alias);
                }
            }
            assert(entry_keys(g.push((new_alias, v))) =~= entry_keys(e).remove(i).push(new_alias));
        }
    }
}

/// The line that describes an Almanac: the number of SPKs and BPCs, then the
/// number of planetary, spacecraft, Euler parameter and location data sets,
/// each where there is any.
pub open spec fn summary_line(a: Almanac) -> Seq<char> {
    let np = dataset_entries(a.planetary_data).len();
    let ns = dataset_entries(a.spacecraft_data).len();
    let ne = dataset_entries(a.euler_param_data).len();
    let nl = dataset_entries(a.location_data).len();
    "Almanac: #SPK = "@ + decimal(a.spk().len()) + "\t#BPC = "@ + decimal(a.bpc().len())
        + (if np > 0 { "\t#Planetary kernels = "@ + decimal(np) } else { seq![] })
        + (if ns > 0 { "\t#Spacecraft kernels = "@ + decimal(ns) } else { seq![] })
        + (if ne > 0 { "\t#Euler param kernels = "@ + decimal(ne) } else { seq![] })
        + (if nl > 0 { "\t#Location kernels = "@ + decimal(nl) } else { seq![] })
}

impl Almanac {
    /// The line that describes this Almanac, e.g.
    /// `Almanac: #SPK = 1\t#BPC = 0`.
    pub fn to_string(&self) -> (r: String)
        ensures
            r@ == summary_line(*self),
    {
        let mut s = String::new();
        s.append("Almanac: #SPK = ");
        push_decimal(&mut s, daf_map_len(&self.spk_data));
        s.append("\t#BPC = ");
        push_decimal(&mut s, daf_map_len(&self.bpc_data));
        let np = dataset_map_len(&self.planetary_data);
        if np > 0 {
            s.append("\t#Planetary kernels = ");
            push_decimal(&mut s, np);
        }
        let ns = dataset_map_len(&self.spacecraft_data);
        if ns > 0 {
            s.append("\t#Spacecraft kernels = ");
            push_decimal(&mut s, ns);
        }
        let ne = dataset_map_len(&self.euler_param_data);
        if ne > 0 {
            s.append("\t#Euler param kernels = ");
            push_decimal(&mut s, ne);
        }
        let nl = dataset_map_len(&self.location_data);
        if nl > 0 {
            s.append("\t#Location kernels = ");
            push_decimal(&mut s, nl);
        }
        assert(s@ =~= summary_line(*self));
        s
    }
}

/// The aliases of a kind when its flag is set, else none.
pub open spec fn if_set(flag: Option<bool>, keys: Seq<Seq<char>>) -> Seq<Seq<char>> {
    if flag == Some(true) { keys } else { seq![] }
}

/// What `list_kernels` lists. When any of the SPK, BPC, planetary, Euler
/// parameter or location flags is set, exactly the kinds whose flag is set
/// are listed (a kind whose flag is not given is not); in particular, with
/// only the planetary flag set, exactly the planetary aliases in loading
/// order. When no flag is given at all, every kind but the instruments is
/// listed, in the order SPK, BPC, planetary, spacecraft, Euler parameters,
/// locations, each in loading order.
pub proof fn lemma_list_kernels_selection(
    a: Almanac,
    spk: Option<bool>,
    bpc: Option<bool>,
    planetary: Option<bool>,
    spacecraft: Option<bool>,
    eulerparams: Option<bool>,
    locations: Option<bool>,
)
    ensures
        (spk == Some(true) || bpc == Some(true) || planetary == Some(true) || eulerparams == Some(true) || locations
            == Some(true)) ==> listed_aliases(a, spk, bpc, planetary, spacecraft, eulerparams, locations) == if_set(
            spk,
            entry_keys(a.spk()),
        ) + if_set(bpc, entry_keys(a.bpc())) + if_set(planetary, entry_keys(dataset_entries(a.planetary_data)))
            + if_set(spacecraft, entry_keys(dataset_entries(a.spacecraft_data))) + if_set(
            eulerparams,
            entry_keys(dataset_entries(a.euler_param_data)),
        ) + if_set(locations, entry_keys(dataset_entries(a.location_data))),
        listed_aliases(a, None, None, Some(true), None, None, None) == entry_keys(dataset_entries(a.planetary_data)),
        listed_aliases(a, None, None, None, None, None, None) == entry_keys(a.spk()) + entry_keys(a.bpc())
            + entry_keys(dataset_entries(a.planetary_data)) + entry_keys(dataset_entries(a.spacecraft_data))
            + entry_keys(dataset_entries(a.euler_param_data)) + entry_keys(dataset_entries(a.location_data)),
{
    let e: Seq<Seq<char>> = seq![];
    assert(e + entry_keys(dataset_entries(a.planetary_data)) + e + e + e + e =~= entry_keys(
        dataset_entries(a.planetary_data),
    ));
    if spk == Some(true) || bpc == Some(true) || planetary == Some(true) || eulerparams == Some(true) || locations
        == Some(true) {
        assert(listed_aliases(a, spk, bpc, planetary, spacecraft, eulerparams, locations) =~= if_set(
            spk,
            entry_keys(a.spk()),
        ) + if_set(bpc, entry_keys(a.bpc())) + if_set(planetary, entry_keys(dataset_entries(a.planetary_data)))
            + if_set(spacecraft, entry_keys(dataset_entries(a.spacecraft_data))) + if_set(
            eulerparams,
            entry_keys(dataset_entries(a.euler_param_data)),
        ) + if_set(locations, entry_keys(dataset_entries(a.location_data))));
    }
}

/// `t` occurs in `s`.
pub open spec fn contains_text(s: Seq<char>, t: Seq<char>) -> bool {
    exists|i: int| 0 <= i && i + t.len() <= s.len() && #[trigger] s.subrange(i, i + t.len()) == t
}

proof fn lemma_part_occurs(a: Seq<char>, b: Seq<char>, c: Seq<char>)
    ensures
        contains_text(a + b + c, b),
{
    let s = a + b + c;
    assert(s.subrange(a.len() as int, (a.len() + b.len()) as int) =~= b);
}

/// The summary line starts with the number of SPKs and BPCs, and holds, for
/// each kind of data set with some loaded, its label followed by that number
/// (e.g. `\t#Euler param kernels = 2`); with no data set loaded it is just
/// `Almanac: #SPK = <n>\t#BPC = <m>`.
pub proof fn lemma_summary_line_counts(a: Almanac)
    ensures
        ("Almanac: #SPK = "@ + decimal(a.spk().len()) + "\t#BPC = "@ + decimal(a.bpc().len())).is_prefix_of(summary_line(a)),
        dataset_entries(a.planetary_data).len() > 0 ==> contains_text(
            summary_line(a),
            "\t#Planetary kernels = "@ + decimal(dataset_entries(a.planetary_data).len()),
        ),
        dataset_entries(a.spacecraft_data).len() > 0 ==> contains_text(
            summary_line(a),
            "\t#Spacecraft kernels = "@ + decimal(dataset_entries(a.spacecraft_data).len()),
        ),
        dataset_entries(a.euler_param_data).len() > 0 ==> contains_text(
            summary_line(a),
            "\t#Euler param kernels = "@ + decimal(dataset_entries(a.euler_param_data).len()),
        ),
        dataset_entries(a.location_data).len() > 0 ==> contains_text(
            summary_line(a),
            "\t#Location kernels = "@ + decimal(dataset_entries(a.location_data).len()),
        ),
        (dataset_entries(a.planetary_data).len() == 0 && dataset_entries(a.spacecraft_data).len() == 0
            && dataset_entries(a.euler_param_data).len() == 0 && dataset_entries(a.location_data).len() == 0)
            ==> summary_line(a) == "Almanac: #SPK = "@ + decimal(a.spk().len()) + "\t#BPC = "@ + decimal(
            a.bpc().len(),
        ),
{
    let np = dataset_entries(a.planetary_data).len();
    let ns = dataset_entries(a.spacecraft_data).len();
    let ne = dataset_entries(a.euler_param_data).len();
    let nl = dataset_entries(a.location_data).len();
    let head = "Almanac: #SPK = "@ + decimal(a.spk().len()) + "\t#BPC = "@ + decimal(a.bpc().len());
    let pp = if np > 0 { "\t#Planetary kernels = "@ + decimal(np) } else { seq![] };
    let sp = if ns > 0 { "\t#Spacecraft kernels = "@ + decimal(ns) } else { seq![] };
    let ep = if ne > 0 { "\t#Euler param kernels = "@ + decimal(ne) } else { seq![] };
    let lp = if nl > 0 { "\t#Location kernels = "@ + decimal(nl) } else { seq![] };
    let line = summary_line(a);
    assert(line == head + pp + sp + ep + lp);
    assert(line =~= head + (pp + sp + ep + lp));
    assert(head.is_prefix_of(line)) by {
        assert(line.subrange(0, head.len() as int) =~= head);
    }
    lemma_part_occurs(head, pp, sp + ep + lp);
    assert(head + pp + (sp + ep + lp) =~= line);
    lemma_part_occurs(head + pp, sp, ep + lp);
    assert(head + pp + sp + (ep + lp) =~= line);
    lemma_part_occurs(head + pp + sp, ep, lp);
    assert(head + pp + sp + ep + lp =~= line);
    lemma_part_occurs(head + pp + sp + ep, lp, seq![]);
    assert(head + pp + sp + ep + lp + seq![] =~= line);
    if np == 0 && ns == 0 && ne == 0 && nl == 0 {
        assert(line =~= head);
    }
}

} // verus!
