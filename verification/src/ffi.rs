//! What the C interface reports: status codes and the logging configuration.
use vstd::prelude::*;

use std::path::PathBuf;

use crate::error::AppError;
use crate::strings::{chars_starts_with, copy_str, str_eq, to_chars};

verus! {

/// A path on the file system; its contents are not inspected here.
#[verifier::external_type_specification]
#[verifier::external_body]
pub struct ExPathBuf(std::path::PathBuf);

/// The status returned across the C interface.
#[derive(Clone, Copy, Debug, PartialEq, Eq, Structural)]
pub enum InkFlowStatus {
    Success,
    Null,
    InvalidArgument,
    InternalError,
}

impl InkFlowStatus {
    /// The numeric code: 0, 1, 2, 3 in declaration order.
    pub fn code(self) -> (r: i32)
        ensures
            r == (match self {
                InkFlowStatus::Success => 0i32,
                InkFlowStatus::Null => 1i32,
                InkFlowStatus::InvalidArgument => 2i32,
                InkFlowStatus::InternalError => 3i32,
            }),
    {
        match self {
            InkFlowStatus::Success => 0,
            InkFlowStatus::Null => 1,
            InkFlowStatus::InvalidArgument => 2,
            InkFlowStatus::InternalError => 3,
        }
    }
}

/// Errors about the caller's audio or settings are invalid arguments; all
/// others are internal errors.
pub fn map_error_status(err: &AppError) -> (r: InkFlowStatus)
    ensures
        r == (if err.code@ == "audio_invalid"@ || err.code@ == "settings_invalid"@ {
            InkFlowStatus::InvalidArgument
        } else {
            InkFlowStatus::InternalError
        }),
{
    if str_eq(err.code.as_str(), "audio_invalid") || str_eq(err.code.as_str(), "settings_invalid") {
        InkFlowStatus::InvalidArgument
    } else {
        InkFlowStatus::InternalError
    }
}

/// The status of an audio submission decided before the engine is asked:
/// a missing handle, nothing to submit, or missing samples.
pub fn submission_precheck(handle_present: bool, sample_count: usize, samples_present: bool) -> (r:
    Option<InkFlowStatus>)
    ensures
        r == (if !handle_present {
            Some(InkFlowStatus::Null)
        } else if sample_count == 0 {
            Some(InkFlowStatus::Success)
        } else if !samples_present {
            Some(InkFlowStatus::InvalidArgument)
        } else {
            None
        }),
{
    if !handle_present {
        Some(InkFlowStatus::Null)
    } else if sample_count == 0 {
        Some(InkFlowStatus::Success)
    } else if !samples_present {
        Some(InkFlowStatus::InvalidArgument)
    } else {
        None
    }
}

/// The status of an engine call's outcome.
pub fn outcome_status(outcome: &Result<(), AppError>) -> (r: InkFlowStatus)
    ensures
        r == (match outcome {
            Ok(()) => InkFlowStatus::Success,
            Err(e) => if e.code@ == "audio_invalid"@ || e.code@ == "settings_invalid"@ {
                InkFlowStatus::InvalidArgument
            } else {
                InkFlowStatus::InternalError
            },
        }),
{
    match outcome {
        Ok(()) => InkFlowStatus::Success,
        Err(e) => map_error_status(e),
    }
}

/// How often the log file rolls over.
#[derive(Clone, Copy, Debug, PartialEq, Eq, Structural)]
pub enum Rotation {
    Daily,
    Hourly,
    Never,
}

/// A log file output.
#[derive(Debug)]
pub struct FileOutputConfig {
    pub dir: Option<PathBuf>,
    pub filename: String,
    pub rotation: Rotation,
    pub level_override: Option<String>,
}

impl Default for FileOutputConfig {
    fn default() -> (r: Self)
        ensures
            r.dir is None,
            r.filename@ == "inkflow.log"@,
            r.rotation == Rotation::Daily,
            r.level_override is None,
    {
        FileOutputConfig {
            dir: None,
            filename: copy_str("inkflow.log"),
            rotation: Rotation::Daily,
            level_override: None,
        }
    }
}

/// A log output.
#[derive(Debug)]
pub enum LogOutput {
    File(FileOutputConfig),
}

/// The logging configuration.
#[derive(Debug)]
pub struct LoggingConfig {
    pub default_level: String,
    pub outputs: Vec<LogOutput>,
}

impl Default for LoggingConfig {
    fn default() -> (r: Self)
        ensures
            r.default_level@ == "info"@,
            r.outputs@.len() == 1,
            r.outputs@[0] matches LogOutput::File(f) && f.dir is None && f.filename@
                == "inkflow.log"@ && f.rotation == Rotation::Daily && f.level_override is None,
    {
        let mut outputs: Vec<LogOutput> = Vec::new();
        outputs.push(LogOutput::File(FileOutputConfig::default()));
        LoggingConfig { default_level: copy_str("info"), outputs }
    }
}

/// Whether a directory entry is an old log file to delete: a file whose name
/// starts with the log file name and that was modified before the cutoff.
pub fn is_expired_log(
    is_file: bool,
    name: Option<&str>,
    filename: &str,
    modified_before_cutoff: Option<bool>,
) -> (r: bool)
    ensures
        r == (is_file && (name matches Some(n) && filename@.len() <= n@.len() && n@.take(
            filename@.len() as int,
        ) == filename@) && modified_before_cutoff == Some(true)),
{
    if !is_file {
        return false;
    }
    let n = match name {
        Some(n) => n,
        None => {
            return false;
        },
    };
    let nv = to_chars(n);
    let fv = to_chars(filename);
    if !chars_starts_with(nv.as_slice(), fv.as_slice()) {
        return false;
    }
    match modified_before_cutoff {
        Some(true) => true,
        _ => false,
    }
}

} // verus!
