//! The ways in which a run fails, and what is said about each.

use vstd::prelude::*;

verus! {

/// A failure that ends the run. None of them is recovered from.
#[derive(Debug, PartialEq, Eq)]
pub enum CliError {
    /// No file path was given.
    Usage,
    /// A flag was the last argument, with no value after it.
    MissingFlagValue { flag: String },
    /// The value of the minimum length is not a count.
    InvalidFlagValue,
    /// The file could not be read.
    FileRead { path: String, reason: String },
}

/// A failure, with its texts as sequences of characters.
pub enum CliErrorModel {
    Usage,
    MissingFlagValue { flag: Seq<char> },
    InvalidFlagValue,
    FileRead { path: Seq<char>, reason: Seq<char> },
}

impl View for CliError {
    type V = CliErrorModel;

    open spec fn view(&self) -> CliErrorModel {
        match *self {
            CliError::Usage => CliErrorModel::Usage,
            CliError::MissingFlagValue { flag } => CliErrorModel::MissingFlagValue { flag: flag@ },
            CliError::InvalidFlagValue => CliErrorModel::InvalidFlagValue,
            CliError::FileRead { path, reason } => CliErrorModel::FileRead {
                path: path@,
                reason: reason@,
            },
        }
    }
}

/// What is said of a flag that came without its value.
pub open spec fn missing_value_text(flag: Seq<char>) -> Seq<char> {
    "Flag '"@ + flag + "' was provided but no value followed it"@
}

/// The one-line diagnostic of a failure, without a line end.
pub open spec fn message_text(error: CliErrorModel) -> Seq<char> {
    match error {
        CliErrorModel::Usage => "Usage: wordfreq <file_path> [--min-length N] [--starts-with C]"@,
        CliErrorModel::MissingFlagValue { flag } => "Error: "@ + missing_value_text(flag),
        CliErrorModel::InvalidFlagValue => "Error: --min-length requires a valid positive number"@,
        CliErrorModel::FileRead { path, reason } => "Failed to read file '"@ + path + "': "@
            + reason,
    }
}

/// Writes what is said of a flag that came without its value.
pub fn missing_value_message(flag: &str) -> (message: String)
    ensures
        message@ == missing_value_text(flag@),
{
    let mut message: String = "Flag '".to_owned();
    message.append(flag);
    message.append("' was provided but no value followed it");
    message
}

impl CliError {
    /// The one-line diagnostic for the error stream, without a line end.
    pub fn message(&self) -> (message: String)
        ensures
            message@ == message_text(self@),
    {
        match self {
            CliError::Usage => {
                "Usage: wordfreq <file_path> [--min-length N] [--starts-with C]".to_owned()
            },
            CliError::MissingFlagValue { flag } => {
                let mut message: String = "Error: ".to_owned();
                let detail = missing_value_message(flag.as_str());
                message.append(detail.as_str());
                message
            },
            CliError::InvalidFlagValue => {
                "Error: --min-length requires a valid positive number".to_owned()
            },
            CliError::FileRead { path, reason } => {
                let mut message: String = "Failed to read file '".to_owned();
                message.append(path.as_str());
                message.append("': ");
                message.append(reason.as_str());
                message
            },
        }
    }

    /// The exit code of a run that ended with this failure: 1 for each of
    /// them.
    pub fn exit_code(&self) -> (code: i32)
        ensures
            code == 1,
    {
        1
    }
}

} // verus!
