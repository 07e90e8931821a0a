//! The records of the registry, and the two text formats in which documents
//! declare them.

pub mod app;
pub mod environment;

use vstd::prelude::*;
use vstd::string::*;
use crate::errors::{ErrorModel, VivaError};
use crate::text::same_text;

verus! {

/// A text format for documents.
#[derive(Debug, Clone, Copy, PartialEq, Eq, Structural)]
pub enum SpecFormat {
    Json,
    Yaml,
}

impl SpecFormat {
    /// The file extension that names the format.
    pub open spec fn extension_text(self) -> Seq<char> {
        match self {
            SpecFormat::Json => "json"@,
            SpecFormat::Yaml => "yaml"@,
        }
    }

    /// The file extension that names the format.
    pub fn extension(&self) -> (ext: &'static str)
        ensures
            ext@ == self.extension_text(),
    {
        match self {
            SpecFormat::Json => "json",
            SpecFormat::Yaml => "yaml",
        }
    }
}

/// What both decoders made of one document: the extension of the file it
/// came from, if it had one, and the value or the complaint of each decoder.
#[derive(Debug)]
pub struct Decoded<T> {
    pub extension: Option<String>,
    pub json: Result<T, String>,
    pub yaml: Result<T, String>,
}

/// The format that a file extension names: none without an extension, so
/// that the content decides, and no answer for an extension that is not known.
pub open spec fn format_of(extension: Option<Seq<char>>) -> Result<Option<SpecFormat>, ErrorModel> {
    match extension {
        None => Ok(None),
        Some(ext) => if ext == "json"@ {
            Ok(Some(SpecFormat::Json))
        } else if ext == "yaml"@ || ext == "yml"@ {
            Ok(Some(SpecFormat::Yaml))
        } else {
            Err(ErrorModel::UnsupportedFormat { extension: ext })
        },
    }
}

/// What a failed decoding reports: the document's path and the complaint of
/// every decoder that was tried.
pub open spec fn parse_failure(path: Seq<char>, format: Option<SpecFormat>, json: Seq<char>, yaml: Seq<char>) -> ErrorModel {
    ErrorModel::ParseError {
        details: match format {
            Some(SpecFormat::Json) => path + ": json: "@ + json,
            Some(SpecFormat::Yaml) => path + ": yaml: "@ + yaml,
            None => path + ": json: "@ + json + "; yaml: "@ + yaml,
        },
    }
}

/// The value that a document decodes to in a given format, with the format
/// that gave it. Without a format JSON is tried first and YAML second.
pub open spec fn decoded_as<T>(
    path: Seq<char>,
    format: Option<SpecFormat>,
    json: Result<T, String>,
    yaml: Result<T, String>,
) -> Result<(T, SpecFormat), ErrorModel> {
    match format {
        Some(SpecFormat::Json) => match json {
            Ok(value) => Ok((value, SpecFormat::Json)),
            Err(e) => Err(parse_failure(path, format, e@, Seq::empty())),
        },
        Some(SpecFormat::Yaml) => match yaml {
            Ok(value) => Ok((value, SpecFormat::Yaml)),
            Err(e) => Err(parse_failure(path, format, Seq::empty(), e@)),
        },
        None => match json {
            Ok(value) => Ok((value, SpecFormat::Json)),
            Err(e1) => match yaml {
                Ok(value) => Ok((value, SpecFormat::Yaml)),
                Err(e2) => Err(parse_failure(path, format, e1@, e2@)),
            },
        },
    }
}

/// The value of a document read from a file: the extension picks the
/// format, and an extension that is not known is an error whatever the
/// content.
pub open spec fn decoded<T>(path: Seq<char>, doc: Decoded<T>) -> Result<(T, SpecFormat), ErrorModel> {
    match format_of(
        match doc.extension {
            Some(ext) => Some(ext@),
            None => None,
        },
    ) {
        Ok(format) => decoded_as(path, format, doc.json, doc.yaml),
        Err(e) => Err(e),
    }
}

/// The format that a file extension names.
pub fn format_for_extension(extension: Option<&str>) -> (r: Result<Option<SpecFormat>, VivaError>)
    ensures
        match format_of(
            match extension {
                Some(ext) => Some(ext@),
                None => None,
            },
        ) {
            Ok(format) => r == Ok::<Option<SpecFormat>, VivaError>(format),
            Err(e) => r is Err && r->Err_0@ == e,
        },
{
    match extension {
        None => Ok(None),
        Some(ext) => {
            if same_text(ext, "json") {
                Ok(Some(SpecFormat::Json))
            } else if same_text(ext, "yaml") || same_text(ext, "yml") {
                Ok(Some(SpecFormat::Yaml))
            } else {
                Err(VivaError::UnsupportedFormat { extension: ext.to_owned() })
            }
        },
    }
}

/// Decodes a document whose format is known to be JSON.
pub fn parse_model_spec_json<T>(path: &str, json: Result<T, String>) -> (r: Result<T, VivaError>)
    ensures
        match json {
            Ok(value) => r is Ok && r->Ok_0 == value,
            Err(e) => r is Err && r->Err_0@ == parse_failure(
                path@,
                Some(SpecFormat::Json),
                e@,
                Seq::empty(),
            ),
        },
{
    match json {
        Ok(value) => Ok(value),
        Err(e) => {
            let mut details = path.to_owned();
            details.append(": json: ");
            details.append(e.as_str());
            Err(VivaError::ParseError { details })
        },
    }
}

/// Decodes a document whose format is known to be YAML.
pub fn parse_model_spec_yaml<T>(path: &str, yaml: Result<T, String>) -> (r: Result<T, VivaError>)
    ensures
        match yaml {
            Ok(value) => r is Ok && r->Ok_0 == value,
            Err(e) => r is Err && r->Err_0@ == parse_failure(
                path@,
                Some(SpecFormat::Yaml),
                Seq::empty(),
                e@,
            ),
        },
{
    match yaml {
        Ok(value) => Ok(value),
        Err(e) => {
            let mut details = path.to_owned();
            details.append(": yaml: ");
            details.append(e.as_str());
            Err(VivaError::ParseError { details })
        },
    }
}

/// Decodes a document by its content: JSON first, YAML where JSON fails,
/// and an error that carries both complaints where both fail.
pub fn parse_model_spec<T>(path: &str, json: Result<T, String>, yaml: Result<T, String>) -> (r: Result<
    (T, SpecFormat),
    VivaError,
>)
    ensures
        match decoded_as(path@, None, json, yaml) {
            Ok(found) => r is Ok && r->Ok_0 == found,
            Err(e) => r is Err && r->Err_0@ == e,
        },
{
    match json {
        Ok(value) => Ok((value, SpecFormat::Json)),
        Err(e1) => match yaml {
            Ok(value) => Ok((value, SpecFormat::Yaml)),
            Err(e2) => {
                let mut details = path.to_owned();
                details.append(": json: ");
                details.append(e1.as_str());
                details.append("; yaml: ");
                details.append(e2.as_str());
                Err(VivaError::ParseError { details })
            },
        },
    }
}

/// Decodes a document read from the file at `path`.
pub fn read_model_spec<T>(path: &str, doc: Decoded<T>) -> (r: Result<(T, SpecFormat), VivaError>)
    ensures
        match decoded(path@, doc) {
            Ok(found) => r is Ok && r->Ok_0 == found,
            Err(e) => r is Err && r->Err_0@ == e,
        },
{
    let Decoded { extension, json, yaml } = doc;
    let format = match extension {
        None => None,
        Some(ext) => match format_for_extension(Some(ext.as_str())) {
            Ok(format) => format,
            Err(e) => {
                return Err(e);
            },
        },
    };
    match format {
        Some(SpecFormat::Json) => match parse_model_spec_json(path, json) {
            Ok(value) => Ok((value, SpecFormat::Json)),
            Err(e) => Err(e),
        },
        Some(SpecFormat::Yaml) => match parse_model_spec_yaml(path, yaml) {
            Ok(value) => Ok((value, SpecFormat::Yaml)),
            Err(e) => Err(e),
        },
        None => parse_model_spec(path, json, yaml),
    }
}

/// The format in which to write the file at a path with the given
/// extension: the one the extension names, JSON where there is none.
pub fn write_model_spec(extension: Option<&str>) -> (r: Result<SpecFormat, VivaError>)
    ensures
        match format_of(
            match extension {
                Some(ext) => Some(ext@),
                None => None,
            },
        ) {
            Ok(Some(format)) => r == Ok::<SpecFormat, VivaError>(format),
            Ok(None) => r == Ok::<SpecFormat, VivaError>(SpecFormat::Json),
            Err(e) => r is Err && r->Err_0@ == e,
        },
{
    match format_for_extension(extension) {
        Ok(Some(format)) => Ok(format),
        Ok(None) => Ok(SpecFormat::Json),
        Err(e) => Err(e),
    }
}

} // verus!
