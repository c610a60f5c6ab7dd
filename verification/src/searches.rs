//! Searches for one summary of an ID among the loaded kernels: the most
//! recently loaded kernel that holds a matching summary answers, with its
//! first matching summary in file order.
use indexmap::IndexMap;
use vstd::prelude::*;

use crate::almanac::Almanac;
use crate::domain::{max_end, min_start, spec_domain_and_gap, with_id, SummaryRecord};
use crate::almanac::loaded_rev;
use crate::errors::{DAFError, EphemerisError, OrientationError};
use crate::registry::{daf_entries, daf_map_get_index, daf_map_len, DafKernel};

verus! {

/// The summary describes `id` and, where an epoch is given, holds it (its
/// start and end included).
pub open spec fn summary_matches(r: SummaryRecord, id: i32, at: Option<i128>) -> bool {
    r.id == id && (at matches Some(t) ==> r.start <= t && t <= r.end)
}

/// Summary `j` of kernel `k` matches, no earlier summary of that kernel
/// does, and no kernel loaded after `k` holds a match.
pub open spec fn summary_found_at(
    e: Seq<(Seq<char>, Seq<SummaryRecord>)>,
    id: i32,
    at: Option<i128>,
    k: int,
    j: int,
) -> bool {
    &&& 0 <= k < e.len()
    &&& 0 <= j < e[k].1.len()
    &&& summary_matches(e[k].1[j], id, at)
    &&& forall|jj: int| 0 <= jj < j ==> !summary_matches(#[trigger] e[k].1[jj], id, at)
    &&& forall|k2: int, jj: int|
        k < k2 < e.len() && 0 <= jj < e[k2].1.len() ==> !summary_matches(#[trigger] e[k2].1[jj], id, at)
}

/// No loaded summary matches.
pub open spec fn no_summary_matches(e: Seq<(Seq<char>, Seq<SummaryRecord>)>, id: i32, at: Option<i128>) -> bool {
    forall|k: int, jj: int| 0 <= k < e.len() && 0 <= jj < e[k].1.len() ==> !summary_matches(#[trigger] e[k].1[jj], id, at)
}

/// The first matching summary of a kernel.
fn first_match(kernel: &DafKernel, id: i32, at: Option<i128>) -> (r: Option<usize>)
    ensures
        r matches Some(j) ==> j < kernel@.len() && summary_matches(kernel@[j as int], id, at) && forall|jj: int|
            0 <= jj < j ==> !summary_matches(#[trigger] kernel@[jj], id, at),
        r is None ==> forall|jj: int| 0 <= jj < kernel@.len() ==> !summary_matches(#[trigger] kernel@[jj], id, at),
{
    let mut j: usize = 0;
    while j < kernel.summaries.len()
        invariant
            j <= kernel.summaries.len(),
            forall|jj: int| 0 <= jj < j ==> !summary_matches(#[trigger] kernel@[jj], id, at),
        decreases kernel.summaries.len() - j,
    {
        let s = kernel.summaries[j];
        let holds = match at {
            Some(t) => s.start <= t && t <= s.end,
            None => true,
        };
        if s.id == id && holds {
            return Some(j);
        }
        j = j + 1;
    }
    None
}

/// Searches the kernels, the most recently loaded first, for a matching
/// summary: gives the position of its kernel in loading order and its
/// position in that kernel.
pub fn find_summary(m: &IndexMap<String, DafKernel>, id: i32, at: Option<i128>) -> (r: Option<(usize, usize)>)
    ensures
        r matches Some((k, j)) ==> summary_found_at(daf_entries(*m), id, at, k as int, j as int),
        r is None ==> no_summary_matches(daf_entries(*m), id, at),
{
    let ghost e = daf_entries(*m);
    let n = daf_map_len(m);
    let mut k: usize = n;
    while k > 0
        invariant
            k <= n,
            n == e.len(),
            e == daf_entries(*m),
            forall|k2: int, jj: int|
                k <= k2 < e.len() && 0 <= jj < e[k2].1.len() ==> !summary_matches(#[trigger] e[k2].1[jj], id, at),
        decreases k,
    {
        match daf_map_get_index(m, k - 1) {
            Some((_, kernel)) => match first_match(kernel, id, at) {
                Some(j) => {
                    return Some((k - 1, j));
                },
                None => {},
            },
            None => {},
        }
        k = k - 1;
    }
    None
}

/// Summary `j` of kernel `k`.
fn summary_at(m: &IndexMap<String, DafKernel>, k: usize, j: usize) -> (r: SummaryRecord)
    requires
        k < daf_entries(*m).len(),
        j < daf_entries(*m)[k as int].1.len(),
    ensures
        r == daf_entries(*m)[k as int].1[j as int],
{
    match daf_map_get_index(m, k) {
        Some((_, kernel)) => kernel.summaries[j],
        None => SummaryRecord { id: 0, start: 0, end: 0 },
    }
}

impl Almanac {
    /// The most recently loaded summary of `id` among the SPKs: the summary,
    /// the position of its SPK in loading order, and its position in that
    /// SPK.
    pub fn spk_summary(&self, id: i32) -> (r: Result<(SummaryRecord, usize, usize), EphemerisError>)
        ensures
            r matches Ok((s, k, j)) ==> summary_found_at(self.spk(), id, None, k as int, j as int) && s
                == self.spk()[k as int].1[j as int],
            r is Err ==> no_summary_matches(self.spk(), id, None),
            r is Err ==> r == Err::<(SummaryRecord, usize, usize), _>(
                EphemerisError::SPK {
                    action: "searching for SPK summary",
                    source: DAFError::SummaryIdError { kind: "SPK", id },
                },
            ),
    {
        match find_summary(&self.spk_data, id, None) {
            Some((k, j)) => Ok((summary_at(&self.spk_data, k, j), k, j)),
            None => Err(
                EphemerisError::SPK {
                    action: "searching for SPK summary",
                    source: DAFError::SummaryIdError { kind: "SPK", id },
                },
            ),
        }
    }

    /// The most recently loaded summary of `id` among the BPCs: the summary,
    /// the position of its BPC in loading order, and its position in that
    /// BPC.
    pub fn bpc_summary(&self, id: i32) -> (r: Result<(SummaryRecord, usize, usize), OrientationError>)
        ensures
            r matches Ok((s, k, j)) ==> summary_found_at(self.bpc(), id, None, k as int, j as int) && s
                == self.bpc()[k as int].1[j as int],
            r is Err ==> no_summary_matches(self.bpc(), id, None),
            r is Err ==> r == Err::<(SummaryRecord, usize, usize), _>(
                OrientationError::BPC {
                    action: "searching for BPC summary",
                    source: DAFError::SummaryIdError { kind: "BPC", id },
                },
            ),
    {
        match find_summary(&self.bpc_data, id, None) {
            Some((k, j)) => Ok((summary_at(&self.bpc_data, k, j), k, j)),
            None => Err(
                OrientationError::BPC {
                    action: "searching for BPC summary",
                    source: DAFError::SummaryIdError { kind: "BPC", id },
                },
            ),
        }
    }

    /// The most recently loaded summary of `id` among the SPKs that holds
    /// `epoch` (TAI nanoseconds). Where none does, the error gives the domain
    /// of `id` and whether it has gaps, or that `id` is not loaded at all.
    pub fn spk_summary_at_epoch(&self, id: i32, epoch: i128) -> (r: Result<(SummaryRecord, usize, usize), EphemerisError>)
        ensures
            r matches Ok((s, k, j)) ==> summary_found_at(self.spk(), id, Some(epoch), k as int, j as int) && s
                == self.spk()[k as int].1[j as int],
            r is Err ==> no_summary_matches(self.spk(), id, Some(epoch)),
            r is Err && with_id(loaded_rev(self.spk()), id).len() == 0 ==> r == Err::<(SummaryRecord, usize, usize), _>(
                EphemerisError::SPK {
                    action: "searching for SPK summary",
                    source: DAFError::SummaryIdError { kind: "SPK", id },
                },
            ),
            r is Err && with_id(loaded_rev(self.spk()), id).len() > 0 ==> r == Err::<(SummaryRecord, usize, usize), _>(
                EphemerisError::SPK {
                    action: "searching for SPK summary",
                    source: DAFError::SummaryIdAtEpochError {
                        kind: "SPK",
                        id,
                        epoch,
                        start: spec_domain_and_gap(with_id(loaded_rev(self.spk()), id)).0,
                        end: spec_domain_and_gap(with_id(loaded_rev(self.spk()), id)).1,
                        has_gap: Some(spec_domain_and_gap(with_id(loaded_rev(self.spk()), id)).2),
                    },
                },
            ),
    {
        match find_summary(&self.spk_data, id, Some(epoch)) {
            Some((k, j)) => Ok((summary_at(&self.spk_data, k, j), k, j)),
            None => match self.spk_domain_and_gap(id) {
                Err(e) => Err(e),
                Ok((start, end, has_gap)) => Err(
                    EphemerisError::SPK {
                        action: "searching for SPK summary",
                        source: DAFError::SummaryIdAtEpochError {
                            kind: "SPK",
                            id,
                            epoch,
                            start,
                            end,
                            has_gap: Some(has_gap),
                        },
                    },
                ),
            },
        }
    }

    /// The most recently loaded summary of `id` among the BPCs that holds
    /// `epoch` (TAI nanoseconds). Where none does, the error gives the domain
    /// of `id`, or that `id` is not loaded at all.
    pub fn bpc_summary_at_epoch(&self, id: i32, epoch: i128) -> (r: Result<(SummaryRecord, usize, usize), OrientationError>)
        ensures
            r matches Ok((s, k, j)) ==> summary_found_at(self.bpc(), id, Some(epoch), k as int, j as int) && s
                == self.bpc()[k as int].1[j as int],
            r is Err ==> no_summary_matches(self.bpc(), id, Some(epoch)),
            r is Err && with_id(loaded_rev(self.bpc()), id).len() == 0 ==> r == Err::<(SummaryRecord, usize, usize), _>(
                OrientationError::BPC {
                    action: "searching for BPC summary",
                    source: DAFError::SummaryIdError { kind: "BPC", id },
                },
            ),
            r is Err && with_id(loaded_rev(self.bpc()), id).len() > 0 ==> r == Err::<(SummaryRecord, usize, usize), _>(
                OrientationError::BPC {
                    action: "searching for SPK summary",
                    source: DAFError::SummaryIdAtEpochError {
                        kind: "BPC",
                        id,
                        epoch,
                        start: min_start(with_id(loaded_rev(self.bpc()), id)),
                        end: max_end(with_id(loaded_rev(self.bpc()), id)),
                        has_gap: None,
                    },
                },
            ),
    {
        match find_summary(&self.bpc_data, id, Some(epoch)) {
            Some((k, j)) => Ok((summary_at(&self.bpc_data, k, j), k, j)),
            None => match self.bpc_domain(id) {
                Err(e) => Err(e),
                Ok((start, end)) => Err(
                    OrientationError::BPC {
                        action: "searching for SPK summary",
                        source: DAFError::SummaryIdAtEpochError { kind: "BPC", id, epoch, start, end, has_gap: None },
                    },
                ),
            },
        }
    }
}

} // verus!
