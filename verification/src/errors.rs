//! Error taxonomy: every fallible entry point returns a tagged error,
//! and each field decoder has a kind of its own carrying the offending
//! text, so column-level corruption stays diagnosable.
use vstd::prelude::*;

verus! {

/// Why a parse was rejected.
#[derive(Debug, PartialEq, Eq)]
pub enum ParsingError {
    /// The revision character of header line 1 is not a supported one.
    NonSupportedRevision,
    /// The orbit-type field of header line 1 is not a known label.
    UnknownOrbitType,
    /// The data-type character of header line 1 is not a known one.
    UnknownDataType,
    /// The input ended before header line 1.
    MissingH1,
    /// The input ended before header line 2.
    MissingH2,
    /// Header line 1 is shorter than the minimum width.
    InvalidH1,
    /// Header line 2 does not have its exact fixed width.
    MalformedH2,
    /// A file-descriptor lead line with unreadable fields.
    InvalidFileDescriptorH1,
    /// A release date-time field of header line 1 is unreadable.
    DateTimeParsing(String),
    /// An epoch marker line carries an unreadable timestamp.
    Epoch,
    EpochYear(String),
    EpochMonth(String),
    EpochDay(String),
    EpochHours(String),
    EpochMinutes(String),
    EpochSeconds(String),
    EpochMilliSeconds(String),
    /// The epoch-count field of header line 1 is unreadable.
    EpochCount(String),
    /// The GNSS week fields of header line 2 are unreadable.
    WeekCounter(String),
    /// The sampling-interval field of header line 2 is unreadable.
    EpochInterval(String),
    /// The modified-Julian-date fields of header line 2 are unreadable.
    Mjd(String),
    /// A satellite identifier field is unreadable.
    SV(String),
    /// A coordinate or velocity-component field is unreadable.
    Coordinates(String),
    /// A clock field is unreadable.
    Clock(String),
    /// A position or velocity record stands before any epoch marker.
    MissingEpoch,
}

/// Why serialization would fail.  Rendering a well-formed dataset is
/// total, so the taxonomy holds only a reserved placeholder for
/// sink-side failures of a caller's output layer.
#[derive(Debug, PartialEq, Eq)]
pub enum FormattingError {
    /// Reserved: no serialization failure is currently produced.
    Unspecified,
}

/// Why two datasets would not merge.
#[derive(Debug, PartialEq, Eq)]
pub enum MergeError {
    /// The two headers name different producing agencies.
    IncompatibleProvenance,
}

} // verus!
