//! Failures of the compliance engine, each with its message.
use vstd::prelude::*;

use crate::text::{concat_str, copy_string, decimal_text, number_text};

verus! {

/// Failures of the compliance engine. Failures of the outside I/O, CSV and
/// JSON layers are carried as their messages.
#[derive(Debug)]
pub enum ComplianceError {
    AnnotationParseError { file: String, line: u32, message: String },
    RequirementNotFound { requirement_id: String },
    CoverageDataNotFound { path: String },
    InvalidCoverageData { file: String, message: String },
    ToolQualificationError { message: String },
    ChecksumMismatch { file: String, expected: String, found: String },
    ModeNotEnabled { mode: String },
    UnsupportedExportFormat { format: String },
    DeviationsDetected { deviation_count: usize, details: Vec<String> },
    Io(String),
    Csv(String),
    Json(String),
    Other(String),
}

impl ComplianceError {
    /// The message of this error.
    pub open spec fn message_spec(&self) -> Seq<char> {
        match self {
            ComplianceError::AnnotationParseError { file, line, message } => "Failed to parse traceability annotation in "@
                + file@ + ":"@ + decimal_text(*line as nat) + ": "@ + message@,
            ComplianceError::RequirementNotFound { requirement_id } => "Requirement '"@ + requirement_id@
                + "' not found in traceability matrix"@,
            ComplianceError::CoverageDataNotFound { path } => "Coverage data file not found: "@ + path@,
            ComplianceError::InvalidCoverageData { file, message } => "Invalid coverage data format in "@
                + file@ + ": "@ + message@,
            ComplianceError::ToolQualificationError { message } => "Tool qualification log error: "@ + message@,
            ComplianceError::ChecksumMismatch { file, expected, found } => "Checksum mismatch for "@ + file@
                + ": expected "@ + expected@ + ", found "@ + found@,
            ComplianceError::ModeNotEnabled { mode } => "Compliance mode '"@ + mode@ + "' is not enabled"@,
            ComplianceError::UnsupportedExportFormat { format } => "Export format '"@ + format@
                + "' is not supported"@,
            ComplianceError::DeviationsDetected { deviation_count, .. } => "Deviations detected: "@
                + decimal_text(*deviation_count as nat) + " deviation(s) found"@,
            ComplianceError::Io(m) => "I/O error: "@ + m@,
            ComplianceError::Csv(m) => "CSV error: "@ + m@,
            ComplianceError::Json(m) => "JSON error: "@ + m@,
            ComplianceError::Other(m) => m@,
        }
    }

    pub fn annotation_parse_error(file: String, line: u32, message: String) -> (r: Self)
        ensures
            r == (ComplianceError::AnnotationParseError { file, line, message }),
    {
        ComplianceError::AnnotationParseError { file, line, message }
    }

    pub fn requirement_not_found(requirement_id: String) -> (r: Self)
        ensures
            r == (ComplianceError::RequirementNotFound { requirement_id }),
    {
        ComplianceError::RequirementNotFound { requirement_id }
    }

    pub fn coverage_data_not_found(path: String) -> (r: Self)
        ensures
            r == (ComplianceError::CoverageDataNotFound { path }),
    {
        ComplianceError::CoverageDataNotFound { path }
    }

    pub fn invalid_coverage_data(file: String, message: String) -> (r: Self)
        ensures
            r == (ComplianceError::InvalidCoverageData { file, message }),
    {
        ComplianceError::InvalidCoverageData { file, message }
    }

    pub fn tool_qualification_error(message: String) -> (r: Self)
        ensures
            r == (ComplianceError::ToolQualificationError { message }),
    {
        ComplianceError::ToolQualificationError { message }
    }

    pub fn checksum_mismatch(file: String, expected: String, found: String) -> (r: Self)
        ensures
            r == (ComplianceError::ChecksumMismatch { file, expected, found }),
    {
        ComplianceError::ChecksumMismatch { file, expected, found }
    }

    pub fn mode_not_enabled(mode: String) -> (r: Self)
        ensures
            r == (ComplianceError::ModeNotEnabled { mode }),
    {
        ComplianceError::ModeNotEnabled { mode }
    }

    pub fn unsupported_export_format(format: String) -> (r: Self)
        ensures
            r == (ComplianceError::UnsupportedExportFormat { format }),
    {
        ComplianceError::UnsupportedExportFormat { format }
    }

    pub fn deviations_detected(deviation_count: usize, details: Vec<String>) -> (r: Self)
        ensures
            r == (ComplianceError::DeviationsDetected { deviation_count, details }),
    {
        ComplianceError::DeviationsDetected { deviation_count, details }
    }

    /// The message of this error.
    pub fn message(&self) -> (r: String)
        ensures
            r@ == self.message_spec(),
    {
        match self {
            ComplianceError::AnnotationParseError { file, line, message } => {
                let mut s = concat_str("Failed to parse traceability annotation in ", file.as_str());
                s.append(":");
                s.append(number_text(*line as u64).as_str());
                s.append(": ");
                s.append(message.as_str());
                s
            },
            ComplianceError::RequirementNotFound { requirement_id } => {
                let mut s = concat_str("Requirement '", requirement_id.as_str());
                s.append("' not found in traceability matrix");
                s
            },
            ComplianceError::CoverageDataNotFound { path } => concat_str("Coverage data file not found: ", path.as_str()),
            ComplianceError::InvalidCoverageData { file, message } => {
                let mut s = concat_str("Invalid coverage data format in ", file.as_str());
                s.append(": ");
                s.append(message.as_str());
                s
            },
            ComplianceError::ToolQualificationError { message } => concat_str("Tool qualification log error: ", message.as_str()),
            ComplianceError::ChecksumMismatch { file, expected, found } => {
                let mut s = concat_str("Checksum mismatch for ", file.as_str());
                s.append(": expected ");
                s.append(expected.as_str());
                s.append(", found ");
                s.append(found.as_str());
                s
            },
            ComplianceError::ModeNotEnabled { mode } => {
                let mut s = concat_str("Compliance mode '", mode.as_str());
                s.append("' is not enabled");
                s
            },
            ComplianceError::UnsupportedExportFormat { format } => {
                let mut s = concat_str("Export format '", format.as_str());
                s.append("' is not supported");
                s
            },
            ComplianceError::DeviationsDetected { deviation_count, .. } => {
                let mut s = concat_str("Deviations detected: ", number_text(*deviation_count as u64).as_str());
                s.append(" deviation(s) found");
                s
            },
            ComplianceError::Io(m) => concat_str("I/O error: ", m.as_str()),
            ComplianceError::Csv(m) => concat_str("CSV error: ", m.as_str()),
            ComplianceError::Json(m) => concat_str("JSON error: ", m.as_str()),
            ComplianceError::Other(m) => copy_string(m),
        }
    }
}

} // verus!
