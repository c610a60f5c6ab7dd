//! What a file of bytes is loaded as: a DAF file is recognised by the
//! identification of its file record (`PCK` for a BPC, `SPK` for an SPK),
//! and an ANISE data set by the type given in its metadata.
use vstd::prelude::*;
use vstd::string::*;

use crate::almanac::Almanac;
use crate::errors::AlmanacError;
use crate::text::str_eq;

verus! {

/// The types of ANISE data sets, as their metadata gives them.
#[derive(Copy, Clone, PartialEq, Eq, Structural, Debug)]
pub enum DataSetType {
    /// Not a data set that can be decoded.
    NotApplicable,
    /// Spacecraft data.
    SpacecraftData,
    /// Planetary constants.
    PlanetaryData,
    /// Euler parameters.
    EulerParameterData,
    /// Locations.
    LocationData,
}

/// What a file is loaded as.
#[derive(Copy, Clone, PartialEq, Eq, Structural, Debug)]
pub enum LoadAs {
    /// A binary planetary constants kernel.
    Bpc,
    /// A spacecraft and planet kernel.
    Spk,
    /// Spacecraft data.
    SpacecraftData,
    /// Planetary constants.
    PlanetaryData,
    /// Euler parameters.
    EulerParameterData,
    /// Locations.
    LocationData,
}

/// The outcome of loading bytes: for a DAF file, by the identification
/// `daf_id` of its file record; else, for an ANISE data set, by the type that
/// its metadata gives (or the error of reading that type); else an error. An
/// error is given as its message.
pub open spec fn spec_load_as(
    daf_id: Option<Seq<char>>,
    dataset: Option<Result<DataSetType, Seq<char>>>,
    source: Seq<char>,
) -> Result<LoadAs, Seq<char>> {
    match daf_id {
        Some(id) => if id == "PCK"@ {
            Ok(LoadAs::Bpc)
        } else if id == "SPK"@ {
            Ok(LoadAs::Spk)
        } else {
            Err("DAF/"@ + id + " is not yet supported"@)
        },
        None => match dataset {
            None => Err("file cannot be inspected or loaded directly in ANISE"@),
            Some(Err(e)) => Err("Invalid dataset type: "@ + e),
            Some(Ok(DataSetType::NotApplicable)) => Err("Malformed dataset type in "@ + source),
            Some(Ok(DataSetType::SpacecraftData)) => Ok(LoadAs::SpacecraftData),
            Some(Ok(DataSetType::PlanetaryData)) => Ok(LoadAs::PlanetaryData),
            Some(Ok(DataSetType::EulerParameterData)) => Ok(LoadAs::EulerParameterData),
            Some(Ok(DataSetType::LocationData)) => Ok(LoadAs::LocationData),
        },
    }
}

/// The name of the source of bytes: its path, or `bytes`.
pub open spec fn source_name(path: Option<Seq<char>>) -> Seq<char> {
    match path {
        Some(p) => p,
        None => "bytes"@,
    }
}

/// The message of an error of loading the file at `path`: generic errors
/// name the path.
pub open spec fn with_path_message(path: Seq<char>, err: Seq<char>) -> Seq<char> {
    "with "@ + path + ": "@ + err
}

impl Almanac {
    /// Decides what bytes are loaded as: a DAF file by the identification of
    /// its file record (`daf_id`, where the bytes hold a whole file record
    /// whose identification can be read), else an ANISE data set by the type
    /// in its metadata (`dataset`, where the bytes start with metadata that
    /// decodes: the type, or the message of the error of reading it). `path`
    /// names the file, if the bytes come from one.
    pub fn load_as(daf_id: Option<&str>, dataset: Option<Result<DataSetType, String>>, path: Option<&str>) -> (r: Result<LoadAs, AlmanacError>)
        ensures
            match spec_load_as(
                match daf_id {
                    Some(id) => Some(id@),
                    None => None,
                },
                match dataset {
                    Some(Ok(t)) => Some(Ok(t)),
                    Some(Err(e)) => Some(Err(e@)),
                    None => None,
                },
                source_name(
                    match path {
                        Some(p) => Some(p@),
                        None => None,
                    },
                ),
            ) {
                Ok(k) => r == Ok::<LoadAs, AlmanacError>(k),
                Err(m) => r matches Err(AlmanacError::GenericError { err }) && err@ == m,
            },
    {
        proof {
            reveal_strlit("PCK");
            reveal_strlit("SPK");
        }
        match daf_id {
            Some(id) => {
                if str_eq(id, "PCK") {
                    Ok(LoadAs::Bpc)
                } else if str_eq(id, "SPK") {
                    Ok(LoadAs::Spk)
                } else {
                    let mut err = String::new();
                    err.append("DAF/");
                    err.append(id);
                    err.append(" is not yet supported");
                    Err(AlmanacError::GenericError { err })
                }
            },
            None => match dataset {
                None => {
                    let mut err = String::new();
                    err.append("file cannot be inspected or loaded directly in ANISE");
                    Err(AlmanacError::GenericError { err })
                },
                Some(Err(e)) => {
                    let mut err = String::new();
                    err.append("Invalid dataset type: ");
                    err.append(e.as_str());
                    Err(AlmanacError::GenericError { err })
                },
                Some(Ok(DataSetType::NotApplicable)) => {
                    let mut err = String::new();
                    err.append("Malformed dataset type in ");
                    match path {
                        Some(p) => err.append(p),
                        None => err.append("bytes"),
                    }
                    Err(AlmanacError::GenericError { err })
                },
                Some(Ok(DataSetType::SpacecraftData)) => Ok(LoadAs::SpacecraftData),
                Some(Ok(DataSetType::PlanetaryData)) => Ok(LoadAs::PlanetaryData),
                Some(Ok(DataSetType::EulerParameterData)) => Ok(LoadAs::EulerParameterData),
                Some(Ok(DataSetType::LocationData)) => Ok(LoadAs::LocationData),
            },
        }
    }

    /// The error of loading the file at `path`: a generic error names the
    /// path, any other error is kept.
    pub fn with_path(path: &str, e: AlmanacError) -> (r: AlmanacError)
        ensures
            e matches AlmanacError::GenericError { err } ==> (r matches AlmanacError::GenericError { err: m } && m@
                == with_path_message(path@, err@)),
            !(e is GenericError) ==> r == e,
    {
        match e {
            AlmanacError::GenericError { err } => {
                let mut m = String::new();
                m.append("with ");
                m.append(path);
                m.append(": ");
                m.append(err.as_str());
                AlmanacError::GenericError { err: m }
            },
            other => other,
        }
    }
}

} // verus!
