//! Error types of the library.
use vstd::prelude::*;

verus! {

/// Errors of the physics computations.
#[derive(Copy, Clone, PartialEq, Eq, Debug)]
pub enum PhysicsError {
    /// An aberration configuration could not be used.
    AberrationError { action: &'static str },
}

/// Errors when searching the summaries of DAF kernels.
#[derive(Clone, PartialEq, Eq, Debug)]
pub enum DAFError {
    /// No summary of the requested ID is loaded.
    SummaryIdError { kind: &'static str, id: i32 },
    /// Summaries of the requested ID are loaded, from `start` to `end` (with
    /// gaps where known), but none holds the epoch.
    SummaryIdAtEpochError { kind: &'static str, id: i32, epoch: i128, start: i128, end: i128, has_gap: Option<bool> },
}

/// Errors of the ephemeris (SPK) side of the Almanac.
#[derive(Clone, PartialEq, Eq, Debug)]
pub enum EphemerisError {
    /// No SPK is loaded under the requested alias.
    AliasNotFound { alias: String, action: &'static str },
    /// An error when searching the SPK summaries.
    SPK { action: &'static str, source: DAFError },
    /// No SPK is loaded at all.
    NoEphemerisLoaded,
}

/// Errors of the orientation (BPC) side of the Almanac.
#[derive(Clone, PartialEq, Eq, Debug)]
pub enum OrientationError {
    /// No BPC is loaded under the requested alias.
    AliasNotFound { alias: String, action: &'static str },
    /// An error when searching the BPC summaries.
    BPC { action: &'static str, source: DAFError },
    /// No BPC is loaded at all.
    NoOrientationsLoaded,
    /// An error of a data set of orientation parameters.
    OrientationDataSet { source: DataSetError },
}

/// Errors in looking up an entry of a data set.
#[derive(Clone, PartialEq, Eq, Debug)]
pub enum LutError {
    /// No entry has this ID.
    UnknownId { id: i32 },
    /// No entry has this name.
    UnknownName { name: String },
}

/// Errors of data sets.
#[derive(Clone, PartialEq, Eq, Debug)]
pub enum DataSetError {
    /// The lookup table of the data set could not answer.
    DataSetLut { action: &'static str, source: LutError },
}

/// Errors of the planetary data.
#[derive(Clone, PartialEq, Eq, Debug)]
pub enum PlanetaryDataError {
    /// An error of a planetary data set.
    PlanetaryDataSet { action: &'static str, source: DataSetError },
}

/// Errors of processing a MetaFile or a MetaAlmanac.
#[derive(Clone, PartialEq, Eq, Debug)]
pub enum MetaAlmanacError {
    /// The cache folder could not be created.
    AppDirError,
    /// The URI holds no file path.
    MissingFilePath { path: String },
    /// An input or output error, with what was being done and the error's text.
    MetaIO { path: String, what: &'static str, source: String },
    /// Fetching the URI returned this HTTP status.
    FetchError { status: u16, uri: String },
    /// The connection to the URI failed with this error.
    CnxError { uri: String, error: String },
    /// The file is not a valid Dhall configuration.
    ParseDhall { path: String, err: String },
    /// The configuration could not be written as Dhall.
    ExportDhall { err: String },
    /// A lock file blocks the download.
    PersistentLock { desired: String },
}

/// Errors of the analyses.
#[derive(Clone, PartialEq, Eq, Debug)]
pub enum AnalysisError {
    /// Every scalar of a report failed to evaluate.
    AllScalarsFailed { spec: String },
    /// The event cannot be evaluated in this way.
    InvalidEventEval { err: String },
    /// A generic analysis error.
    GenericAnalysisError { err: String },
}

/// Errors of the Almanac.
#[derive(Clone, PartialEq, Eq, Debug)]
pub enum AlmanacError {
    /// A generic error with its message.
    GenericError { err: String },
    /// An error of a data set.
    TLDataSet { action: &'static str, source: DataSetError },
    /// The file at this path could not be read; the text of the I/O error.
    Loading { path: String, source: String },
}

} // verus!
