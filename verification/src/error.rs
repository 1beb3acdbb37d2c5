//! Errors raised by the verified core.
use vstd::prelude::*;

verus! {

/// `chrono`'s error for a string that is not a valid date-time.
#[verifier::external_type_specification]
#[verifier::external_body]
pub struct ExChronoParseError(chrono::ParseError);

/// `csv`'s error for text that the reader cannot split into records.
#[verifier::external_type_specification]
#[verifier::external_body]
pub struct ExCsvError(csv::Error);

/// What can go wrong in the thermal analysis core.
#[derive(Debug)]
pub enum ThermalError {
    MissingEnv(String),
    DateTimeParse { value: String, source: chrono::ParseError },
    CsvParse(csv::Error),
    MissingColumn { column: &'static str, context: &'static str },
    FloatParse { context: &'static str, value: String },
    NoOutsideData,
    MissingRoom(&'static str),
    NoCalibrationCandidates,
    NoStatusData,
    NoCooldownPeriods,
    HumanApprovalRequired,
    EmptySignoffReason,
    InvalidSnapshotPath(String),
}

} // verus!
