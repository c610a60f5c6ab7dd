//! Searches through the loaded data sets: the most recently loaded data set
//! that holds an entry is the one that answers.
//!
//! The entries of ANISE data sets hold floating-point data (masses, inertia,
//! gravity parameters); the library answers where the entry stands, as the
//! position of its data set in loading order and its position in that set.
use indexmap::IndexMap;
use vstd::prelude::*;
use vstd::string::*;

use crate::almanac::Almanac;
use crate::errors::{AlmanacError, DataSetError, LutError, OrientationError, PlanetaryDataError};
use crate::registry::{dataset_entries, dataset_map_get_index, dataset_map_len, DataSetIndex};

verus! {

/// The view of the loaded data sets of one kind, in loading order.
pub type DataSetEntries = Seq<(Seq<char>, (Seq<i32>, Seq<Seq<char>>))>;

/// Entry `j` of data set `d` has this ID, no earlier entry of that set has it,
/// and no data set loaded after `d` has it.
pub open spec fn id_found_at(e: DataSetEntries, id: i32, d: int, j: int) -> bool {
    &&& 0 <= d < e.len()
    &&& 0 <= j < e[d].1.0.len()
    &&& e[d].1.0[j] == id
    &&& forall|k: int| 0 <= k < j ==> #[trigger] e[d].1.0[k] != id
    &&& forall|d2: int, k: int|
        d < d2 < e.len() && 0 <= k < e[d2].1.0.len() ==> #[trigger] e[d2].1.0[k] != id
}

/// No loaded data set has an entry of this ID.
pub open spec fn id_absent(e: DataSetEntries, id: i32) -> bool {
    forall|d: int, k: int| 0 <= d < e.len() && 0 <= k < e[d].1.0.len() ==> #[trigger] e[d].1.0[k] != id
}

/// Entry `j` of data set `d` has this name, no earlier entry of that set has
/// it, and no data set loaded after `d` has it.
pub open spec fn name_found_at(e: DataSetEntries, name: Seq<char>, d: int, j: int) -> bool {
    &&& 0 <= d < e.len()
    &&& 0 <= j < e[d].1.1.len()
    &&& e[d].1.1[j] == name
    &&& forall|k: int| 0 <= k < j ==> #[trigger] e[d].1.1[k] != name
    &&& forall|d2: int, k: int|
        d < d2 < e.len() && 0 <= k < e[d2].1.1.len() ==> #[trigger] e[d2].1.1[k] != name
}

/// No loaded data set has an entry of this name.
pub open spec fn name_absent(e: DataSetEntries, name: Seq<char>) -> bool {
    forall|d: int, k: int| 0 <= d < e.len() && 0 <= k < e[d].1.1.len() ==> #[trigger] e[d].1.1[k] != name
}

/// The first entry of a data set with this ID.
fn position_of_id(d: &DataSetIndex, id: i32) -> (r: Option<usize>)
    ensures
        r matches Some(j) ==> j < d.ids@.len() && d.ids@[j as int] == id && forall|k: int|
            0 <= k < j ==> #[trigger] d.ids@[k] != id,
        r is None ==> forall|k: int| 0 <= k < d.ids@.len() ==> #[trigger] d.ids@[k] != id,
{
    let mut j: usize = 0;
    while j < d.ids.len()
        invariant
            j <= d.ids.len(),
            forall|k: int| 0 <= k < j ==> #[trigger] d.ids@[k] != id,
        decreases d.ids.len() - j,
    {
        if d.ids[j] == id {
            return Some(j);
        }
        j = j + 1;
    }
    None
}

/// The first entry of a data set with this name.
fn position_of_name(d: &DataSetIndex, name: &String) -> (r: Option<usize>)
    ensures
        r matches Some(j) ==> j < d.names@.len() && d.names@[j as int]@ == name@ && forall|k: int|
            0 <= k < j ==> (#[trigger] d.names@[k])@ != name@,
        r is None ==> forall|k: int| 0 <= k < d.names@.len() ==> (#[trigger] d.names@[k])@ != name@,
{
    let mut j: usize = 0;
    while j < d.names.len()
        invariant
            j <= d.names.len(),
            forall|k: int| 0 <= k < j ==> (#[trigger] d.names@[k])@ != name@,
        decreases d.names.len() - j,
    {
        if d.names[j] == *name {
            return Some(j);
        }
        j = j + 1;
    }
    None
}

/// Searches the data sets, the most recently loaded first, for an entry of
/// this ID.
pub fn find_by_id(m: &IndexMap<String, DataSetIndex>, id: i32) -> (r: Option<(usize, usize)>)
    ensures
        r matches Some((d, j)) ==> id_found_at(dataset_entries(*m), id, d as int, j as int),
        r is None ==> id_absent(dataset_entries(*m), id),
{
    let ghost e = dataset_entries(*m);
    let n = dataset_map_len(m);
    let mut k: usize = n;
    while k > 0
        invariant
            k <= n,
            n == e.len(),
            e == dataset_entries(*m),
            forall|d2: int, i: int| k <= d2 < e.len() && 0 <= i < e[d2].1.0.len() ==> #[trigger] e[d2].1.0[i] != id,
        decreases k,
    {
        match dataset_map_get_index(m, k - 1) {
            Some((_, data)) => {
                match position_of_id(data, id) {
                    Some(j) => {
                        return Some((k - 1, j));
                    },
                    None => {},
                }
            },
            None => {},
        }
        k = k - 1;
    }
    None
}

/// Searches the data sets, the most recently loaded first, for an entry of
/// this name.
pub fn find_by_name(m: &IndexMap<String, DataSetIndex>, name: &str) -> (r: Option<(usize, usize)>)
    ensures
        r matches Some((d, j)) ==> name_found_at(dataset_entries(*m), name@, d as int, j as int),
        r is None ==> name_absent(dataset_entries(*m), name@),
{
    let ghost e = dataset_entries(*m);
    let mut wanted = String::new();
    wanted.append(name);
    let n = dataset_map_len(m);
    let mut k: usize = n;
    while k > 0
        invariant
            k <= n,
            n == e.len(),
            e == dataset_entries(*m),
            wanted@ == name@,
            forall|d2: int, i: int| k <= d2 < e.len() && 0 <= i < e[d2].1.1.len() ==> #[trigger] e[d2].1.1[i] != name@,
        decreases k,
    {
        match dataset_map_get_index(m, k - 1) {
            Some((_, data)) => {
                match position_of_name(data, &wanted) {
                    Some(j) => {
                        return Some((k - 1, j));
                    },
                    None => {
                        assert forall|i: int| 0 <= i < e[k - 1].1.1.len() implies #[trigger] e[k - 1].1.1[i] != name@ by {
                            assert(e[k - 1].1.1[i] == data.names@[i]@);
                        }
                    },
                }
            },
            None => {},
        }
        k = k - 1;
    }
    None
}

impl Almanac {
    /// Where the planetary data of `id` stands, searching the planetary data
    /// sets in reverse loading order.
    pub fn get_planetary_data_from_id(&self, id: i32) -> (r: Result<(usize, usize), PlanetaryDataError>)
        ensures
            r matches Ok((d, j)) ==> id_found_at(dataset_entries(self.planetary_data), id, d as int, j as int),
            r is Err ==> id_absent(dataset_entries(self.planetary_data), id),
            r is Err ==> r == Err::<(usize, usize), _>(
                PlanetaryDataError::PlanetaryDataSet {
                    action: "fetching planetary data via its id",
                    source: DataSetError::DataSetLut {
                        action: "fetching by ID",
                        source: LutError::UnknownId { id },
                    },
                },
            ),
    {
        match find_by_id(&self.planetary_data, id) {
            Some(found) => Ok(found),
            None => Err(
                PlanetaryDataError::PlanetaryDataSet {
                    action: "fetching planetary data via its id",
                    source: DataSetError::DataSetLut {
                        action: "fetching by ID",
                        source: LutError::UnknownId { id },
                    },
                },
            ),
        }
    }

    /// Where the spacecraft data of `id` stands, searching the spacecraft
    /// data sets in reverse loading order.
    pub fn spacecraft_data_from_id(&self, id: i32) -> (r: Result<(usize, usize), AlmanacError>)
        ensures
            r matches Ok((d, j)) ==> id_found_at(dataset_entries(self.spacecraft_data), id, d as int, j as int),
            r is Err ==> id_absent(dataset_entries(self.spacecraft_data), id),
            r is Err ==> r == Err::<(usize, usize), _>(
                AlmanacError::TLDataSet {
                    action: "spacecraft data from ID",
                    source: DataSetError::DataSetLut {
                        action: "seeking spacecraft data by ID",
                        source: LutError::UnknownId { id },
                    },
                },
            ),
    {
        match find_by_id(&self.spacecraft_data, id) {
            Some(found) => Ok(found),
            None => Err(
                AlmanacError::TLDataSet {
                    action: "spacecraft data from ID",
                    source: DataSetError::DataSetLut {
                        action: "seeking spacecraft data by ID",
                        source: LutError::UnknownId { id },
                    },
                },
            ),
        }
    }

    /// Where the spacecraft data named `name` stands, searching the
    /// spacecraft data sets in reverse loading order.
    pub fn spacecraft_data_from_name(&self, name: &str) -> (r: Result<(usize, usize), AlmanacError>)
        ensures
            r matches Ok((d, j)) ==> name_found_at(dataset_entries(self.spacecraft_data), name@, d as int, j as int),
            r is Err ==> name_absent(dataset_entries(self.spacecraft_data), name@),
            r matches Err(e) ==> (e matches AlmanacError::TLDataSet {
                action: a,
                source: DataSetError::DataSetLut { action: b, source: LutError::UnknownName { name: n } },
            } && a == "spacecraft data from name" && b == "seeking spacecraft data by name" && n@ == name@),
    {
        match find_by_name(&self.spacecraft_data, name) {
            Some(found) => Ok(found),
            None => {
                let mut n = String::new();
                n.append(name);
                Err(
                    AlmanacError::TLDataSet {
                        action: "spacecraft data from name",
                        source: DataSetError::DataSetLut {
                            action: "seeking spacecraft data by name",
                            source: LutError::UnknownName { name: n },
                        },
                    },
                )
            },
        }
    }

    /// Where the instrument of `id` stands, searching the instrument data
    /// sets in reverse loading order.
    pub fn instrument_from_id(&self, id: i32) -> (r: Result<(usize, usize), AlmanacError>)
        ensures
            r matches Ok((d, j)) ==> id_found_at(dataset_entries(self.instrument_data), id, d as int, j as int),
            r is Err ==> id_absent(dataset_entries(self.instrument_data), id),
            r is Err ==> r == Err::<(usize, usize), _>(
                AlmanacError::TLDataSet {
                    action: "instrument from ID",
                    source: DataSetError::DataSetLut {
                        action: "seeking location by ID",
                        source: LutError::UnknownId { id },
                    },
                },
            ),
    {
        match find_by_id(&self.instrument_data, id) {
            Some(found) => Ok(found),
            None => Err(
                AlmanacError::TLDataSet {
                    action: "instrument from ID",
                    source: DataSetError::DataSetLut {
                        action: "seeking location by ID",
                        source: LutError::UnknownId { id },
                    },
                },
            ),
        }
    }

    /// Where the instrument named `name` stands, searching the instrument
    /// data sets in reverse loading order.
    pub fn instrument_from_name(&self, name: &str) -> (r: Result<(usize, usize), AlmanacError>)
        ensures
            r matches Ok((d, j)) ==> name_found_at(dataset_entries(self.instrument_data), name@, d as int, j as int),
            r is Err ==> name_absent(dataset_entries(self.instrument_data), name@),
            r matches Err(e) ==> (e matches AlmanacError::TLDataSet {
                action: a,
                source: DataSetError::DataSetLut { action: b, source: LutError::UnknownName { name: n } },
            } && a == "instrument from name" && b == "seeking location by name" && n@ == name@),
    {
        match find_by_name(&self.instrument_data, name) {
            Some(found) => Ok(found),
            None => {
                let mut n = String::new();
                n.append(name);
                Err(
                    AlmanacError::TLDataSet {
                        action: "instrument from name",
                        source: DataSetError::DataSetLut {
                            action: "seeking location by name",
                            source: LutError::UnknownName { name: n },
                        },
                    },
                )
            },
        }
    }

    /// Where the Euler parameters of `id` stand, searching the Euler
    /// parameter data sets in reverse loading order.
    pub fn euler_param_from_id(&self, id: i32) -> (r: Result<(usize, usize), OrientationError>)
        ensures
            r matches Ok((d, j)) ==> id_found_at(dataset_entries(self.euler_param_data), id, d as int, j as int),
            r is Err ==> id_absent(dataset_entries(self.euler_param_data), id),
            r is Err ==> r == Err::<(usize, usize), _>(
                OrientationError::OrientationDataSet {
                    source: DataSetError::DataSetLut {
                        action: "fetching by ID",
                        source: LutError::UnknownId { id },
                    },
                },
            ),
    {
        match find_by_id(&self.euler_param_data, id) {
            Some(found) => Ok(found),
            None => Err(
                OrientationError::OrientationDataSet {
                    source: DataSetError::DataSetLut {
                        action: "fetching by ID",
                        source: LutError::UnknownId { id },
                    },
                },
            ),
        }
    }
}

} // verus!
