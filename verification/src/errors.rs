//! The failures that registry operations report.

use vstd::prelude::*;
use vstd::string::*;

verus! {

/// Every way a registry, store or codec operation can fail.
#[derive(Debug)]
pub enum VivaError {
    /// An id was referenced that no registry or collection knows.
    NotFound { id: String },
    /// An id was registered a second time without leave to skip it.
    DuplicateId { id: String },
    /// A document could not be decoded in any of the formats that were tried.
    ParseError { details: String },
    /// A file carries an extension that names no supported format.
    UnsupportedFormat { extension: String },
    /// The file system refused to read, write or remove something.
    IOError { details: String },
    /// Building an environment on disk failed.
    MaterializationFailure { env_id: String, env_path: String, cause: String },
}

/// An error as plain values.
pub enum ErrorModel {
    NotFound { id: Seq<char> },
    DuplicateId { id: Seq<char> },
    ParseError { details: Seq<char> },
    UnsupportedFormat { extension: Seq<char> },
    IOError { details: Seq<char> },
    MaterializationFailure { env_id: Seq<char>, env_path: Seq<char>, cause: Seq<char> },
}

impl ErrorModel {
    /// The error in words.
    pub open spec fn message(self) -> Seq<char> {
        match self {
            ErrorModel::NotFound { id } => "not found: "@ + id,
            ErrorModel::DuplicateId { id } => "already registered: "@ + id,
            ErrorModel::ParseError { details } => "cannot parse: "@ + details,
            ErrorModel::UnsupportedFormat { extension } => "unsupported format: "@ + extension,
            ErrorModel::IOError { details } => "input/output failed: "@ + details,
            ErrorModel::MaterializationFailure { env_id, env_path, cause } => {
                "cannot build environment "@ + env_id + " at "@ + env_path + ": "@ + cause
            },
        }
    }
}

impl View for VivaError {
    type V = ErrorModel;

    open spec fn view(&self) -> ErrorModel {
        match *self {
            VivaError::NotFound { id } => ErrorModel::NotFound { id: id@ },
            VivaError::DuplicateId { id } => ErrorModel::DuplicateId { id: id@ },
            VivaError::ParseError { details } => ErrorModel::ParseError { details: details@ },
            VivaError::UnsupportedFormat { extension } => ErrorModel::UnsupportedFormat {
                extension: extension@,
            },
            VivaError::IOError { details } => ErrorModel::IOError { details: details@ },
            VivaError::MaterializationFailure { env_id, env_path, cause } => {
                ErrorModel::MaterializationFailure {
                    env_id: env_id@,
                    env_path: env_path@,
                    cause: cause@,
                }
            },
        }
    }
}

impl VivaError {
    /// The error in words, for display.
    pub fn to_string(&self) -> (text: String)
        ensures
            text@ == self@.message(),
    {
        match self {
            VivaError::NotFound { id } => "not found: ".to_owned().concat(id.as_str()),
            VivaError::DuplicateId { id } => "already registered: ".to_owned().concat(id.as_str()),
            VivaError::ParseError { details } => "cannot parse: ".to_owned().concat(
                details.as_str(),
            ),
            VivaError::UnsupportedFormat { extension } => "unsupported format: ".to_owned().concat(
                extension.as_str(),
            ),
            VivaError::IOError { details } => "input/output failed: ".to_owned().concat(
                details.as_str(),
            ),
            VivaError::MaterializationFailure { env_id, env_path, cause } => {
                let mut text = "cannot build environment ".to_owned();
                text.append(env_id.as_str());
                text.append(" at ");
                text.append(env_path.as_str());
                text.append(": ");
                text.append(cause.as_str());
                text
            },
        }
    }
}

} // verus!
