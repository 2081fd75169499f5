//! Error handling for front matter operations.
//!
//! [`Error`] lists what can go wrong while extracting, parsing, validating
//! or converting front matter; [`Category`] groups the variants, and
//! [`EngineError`] covers the site-generation layer.

#![allow(deprecated)]

use crate::text::{decimal, decimal_string};
use serde_json::Error as JsonError;
use serde_yml::Error as YamlError;
use std::io::Error as IoError;
use std::io::ErrorKind as IoErrorKind;
use std::sync::Arc;
use toml::de::Error as TomlError;
use crate::text::cat;
use vstd::prelude::*;

verus! {

broadcast use vstd::string::group_string_axioms;

/// The kinds of input and output errors.
#[verifier::external_type_specification]
#[verifier::external_body]
pub struct ExIoErrorKind(IoErrorKind);

/// Provides additional context for front matter errors.
#[derive(Debug, Clone)]
pub struct Context {
    /// The line number where the error occurred
    pub line: Option<usize>,
    /// The column number where the error occurred
    pub column: Option<usize>,
    /// A snippet of the content where the error occurred
    pub snippet: Option<String>,
}

/// The number held, or 0.
pub open spec fn or_zero(x: Option<usize>) -> nat {
    match x {
        Some(v) => v as nat,
        None => 0,
    }
}

/// ` near '<snippet>'` where there is a snippet, else nothing.
pub open spec fn snippet_text(snippet: Option<String>) -> Seq<char> {
    match snippet {
        Some(s) => " near '"@ + s@ + "'"@,
        None => Seq::empty(),
    }
}

/// How a context is displayed: `at <line>:<column>` and the snippet part,
/// a missing line or column shown as 0.
pub open spec fn context_text(c: Context) -> Seq<char> {
    "at "@ + decimal(or_zero(c.line)) + ":"@ + decimal(or_zero(c.column)) + snippet_text(c.snippet)
}

/// What [`Error::with_context`] appends to a parse error's message.
pub open spec fn context_suffix(c: Context) -> Seq<char> {
    " (line: "@ + decimal(or_zero(c.line)) + ", column: "@ + decimal(or_zero(c.column)) + ")"@
        + snippet_text(c.snippet)
}

/// The number held, or 0.
fn value_or_zero(x: Option<usize>) -> (r: usize)
    ensures
        r == or_zero(x),
{
    match x {
        Some(v) => v,
        None => 0,
    }
}

/// The snippet part of a context's text.
fn snippet_string(snippet: &Option<String>) -> (r: String)
    ensures
        r@ == snippet_text(*snippet),
{
    match snippet {
        Some(s) => cat(cat(" near '".to_string(), s.as_str()), "'"),
        None => String::new(),
    }
}

impl Context {
    /// The context as displayed, such as `at 42:10 near 'invalid key'`.
    pub fn to_string(&self) -> (r: String)
        ensures
            r@ == context_text(*self),
    {
        let line = decimal_string(value_or_zero(self.line));
        let column = decimal_string(value_or_zero(self.column));
        let s = cat(cat(cat("at ".to_string(), line.as_str()), ":"), column.as_str());
        cat(s, snippet_string(&self.snippet).as_str())
    }
}

/// The error type of the YAML parser.
#[verifier::external_type_specification]
#[verifier::external_body]
pub struct ExYamlError(YamlError);

/// The error type of the TOML parser.
#[verifier::external_type_specification]
#[verifier::external_body]
pub struct ExTomlError(TomlError);

/// The error type of the JSON parser.
#[verifier::external_type_specification]
#[verifier::external_body]
pub struct ExJsonError(JsonError);

/// Represents errors that can occur during front matter operations.
#[derive(Debug)]
#[non_exhaustive]
#[allow(inconsistent_fields)]
pub enum Error {
    /// Content exceeds the maximum allowed size.
    ContentTooLarge {
        /// The actual size of the content
        size: usize,
        /// The maximum allowed size
        max: usize,
    },
    /// Nesting depth exceeds the maximum allowed.
    NestingTooDeep {
        /// The actual nesting depth
        depth: usize,
        /// The maximum allowed depth
        max: usize,
    },
    /// Error occurred whilst parsing YAML content.
    YamlParseError {
        /// The error that the YAML parser reported
        source: Arc<YamlError>,
    },
    /// Error occurred whilst parsing TOML content.
    TomlParseError(TomlError),
    /// Error occurred whilst parsing JSON content.
    JsonParseError(Arc<JsonError>),
    /// The front matter format is invalid or unsupported.
    InvalidFormat,
    /// Error occurred during conversion between formats.
    ConversionError(String),
    /// Generic error during parsing.
    ParseError(String),
    /// Unsupported or unknown front matter format was detected.
    UnsupportedFormat {
        /// The line number where the unsupported format was encountered
        line: usize,
    },
    /// No front matter content was found.
    NoFrontmatterFound,
    /// Invalid JSON front matter.
    InvalidJson,
    /// Invalid URL format.
    InvalidUrl(String),
    /// Invalid TOML front matter.
    InvalidToml,
    /// Invalid YAML front matter.
    InvalidYaml,
    /// Invalid language code.
    InvalidLanguage(String),
    /// JSON front matter exceeds maximum nesting depth.
    JsonDepthLimitExceeded,
    /// Error during front matter extraction.
    ExtractionError(String),
    /// Serialization or deserialization error.
    SerdeError {
        /// The error that the JSON parser reported
        source: Arc<JsonError>,
    },
    /// Input validation error.
    ValidationError(String),
    /// Generic error with a custom message.
    Other(String),
}

/// Categories of errors.
#[derive(Debug, Copy, Clone, Eq, PartialEq, Structural)]
pub enum Category {
    /// Parsing-related errors
    Parsing,
    /// Validation-related errors
    Validation,
    /// Conversion-related errors
    Conversion,
    /// Configuration-related errors
    Configuration,
}

/// The category of each error.
pub open spec fn error_category(e: Error) -> Category {
    match e {
        Error::ValidationError(_) => Category::Validation,
        Error::ConversionError(_) => Category::Conversion,
        Error::ContentTooLarge { .. } | Error::NestingTooDeep { .. } | Error::Other(_) =>
            Category::Configuration,
        _ => Category::Parsing,
    }
}

/// The message of each error whose message depends on the library's
/// values alone; those that show an outside error's message have none.
pub open spec fn error_text(e: Error) -> Option<Seq<char>> {
    match e {
        Error::ContentTooLarge { size, max } => Some(
            "Your front matter contains too many fields ("@ + decimal(size as nat)
                + "). The maximum allowed is "@ + decimal(max as nat) + "."@,
        ),
        Error::NestingTooDeep { depth, max } => Some(
            "Your front matter is nested too deeply ("@ + decimal(depth as nat)
                + " levels). The maximum allowed nesting depth is "@ + decimal(max as nat) + "."@,
        ),
        Error::InvalidFormat => Some("Invalid front matter format"@),
        Error::ConversionError(m) => Some("Failed to convert front matter: "@ + m@),
        Error::ParseError(m) => Some("Failed to parse front matter: "@ + m@),
        Error::UnsupportedFormat { line } => Some(
            "Unsupported front matter format detected at line "@ + decimal(line as nat),
        ),
        Error::NoFrontmatterFound => Some("No front matter found in the content"@),
        Error::InvalidJson => Some("Invalid JSON front matter: malformed or invalid structure."@),
        Error::InvalidUrl(u) => Some(
            "Invalid URL: "@ + u@ + ". Ensure the URL is well-formed and valid."@,
        ),
        Error::InvalidToml => Some("Invalid TOML front matter: malformed or invalid structure."@),
        Error::InvalidYaml => Some("Invalid YAML front matter: malformed or invalid structure."@),
        Error::InvalidLanguage(l) => Some("Invalid language code: "@ + l@),
        Error::JsonDepthLimitExceeded => Some("JSON front matter exceeds maximum nesting depth"@),
        Error::ExtractionError(m) => Some("Extraction error: "@ + m@),
        Error::ValidationError(m) => Some("Input validation error: "@ + m@),
        Error::Other(m) => Some("Generic error: "@ + m@),
        _ => None,
    }
}

/// How the message of an error that shows an outside error's message
/// begins.
pub open spec fn error_prefix(e: Error) -> Seq<char> {
    match e {
        Error::YamlParseError { .. } => "Failed to parse YAML: "@,
        Error::TomlParseError(_) => "Failed to parse TOML: "@,
        Error::JsonParseError(_) => "Failed to parse JSON: "@,
        Error::SerdeError { .. } => "Serialization or deserialization error: "@,
        _ => Seq::empty(),
    }
}

/// The message that the YAML parser's error displays, which its
/// `Display` impl computes from the error's content alone.
pub uninterp spec fn yaml_error_message(e: YamlError) -> Seq<char>;

/// The message that the TOML parser's error displays, which its
/// `Display` impl computes from the error's content alone.
pub uninterp spec fn toml_error_message(e: TomlError) -> Seq<char>;

/// The message that the JSON parser's error displays, which its
/// `Display` impl computes from the error's content alone.
pub uninterp spec fn json_error_message(e: JsonError) -> Seq<char>;

/// Calls `ToString::to_string` on the YAML parser's error, which shows
/// its message, named [`yaml_error_message`] of the error.
#[verifier::external_body]
fn yaml_error_text(e: &Arc<YamlError>) -> (r: String)
    ensures
        r@ == yaml_error_message(**e),
{
    e.to_string()
}

/// Calls `ToString::to_string` on the TOML parser's error, which shows
/// its message, named [`toml_error_message`] of the error.
#[verifier::external_body]
pub(crate) fn toml_error_text(e: &TomlError) -> (r: String)
    ensures
        r@ == toml_error_message(*e),
{
    e.to_string()
}

/// Calls `ToString::to_string` on the JSON parser's error, which shows
/// its message, named [`json_error_message`] of the error.
#[verifier::external_body]
fn json_error_text(e: &Arc<JsonError>) -> (r: String)
    ensures
        r@ == json_error_message(**e),
{
    e.to_string()
}

/// The message of a parser's error that an error holds; empty for the
/// other errors.
pub open spec fn parser_message(e: Error) -> Seq<char> {
    match e {
        Error::YamlParseError { source } => yaml_error_message(*source),
        Error::TomlParseError(err) => toml_error_message(err),
        Error::JsonParseError(err) => json_error_message(*err),
        Error::SerdeError { source } => json_error_message(*source),
        _ => Seq::empty(),
    }
}

/// The message that an error displays.
pub open spec fn error_message(e: Error) -> Seq<char> {
    match error_text(e) {
        Some(t) => t,
        None => error_prefix(e) + parser_message(e),
    }
}

/// Calls `ToString::to_string` on an input or output error, which shows
/// its message; nothing is stated of it.
#[verifier::external_body]
pub(crate) fn io_error_text(e: &IoError) -> String {
    e.to_string()
}

/// Calls `io::Error::kind`; nothing is stated of the kind.
#[verifier::external_body]
fn io_error_kind(e: &IoError) -> IoErrorKind {
    e.kind()
}

/// Calls `io::Error::new`, which makes an error of the given kind with
/// the given message; nothing is stated of the opaque result.
#[verifier::external_body]
fn io_error_new(kind: IoErrorKind, message: String) -> IoError {
    IoError::new(kind, message)
}

/// Calls `Arc::clone`, which the standard library documents as making
/// another pointer to the same allocation: the same value.
#[verifier::external_body]
fn clone_arc<T>(a: &Arc<T>) -> (r: Arc<T>)
    ensures
        r == *a,
{
    Arc::clone(a)
}

/// Calls `Clone::clone` on the TOML parser's error, whose `Clone` is
/// derived over its fields: the copy is the same value.
#[verifier::external_body]
fn clone_toml_error(e: &TomlError) -> (r: TomlError)
    ensures
        r == *e,
{
    e.clone()
}

/// Two errors are the same variant with the same content.
pub open spec fn same_error(a: Error, b: Error) -> bool {
    match a {
        Error::ConversionError(m) => b matches Error::ConversionError(n) && n@ == m@,
        Error::ParseError(m) => b matches Error::ParseError(n) && n@ == m@,
        Error::InvalidUrl(m) => b matches Error::InvalidUrl(n) && n@ == m@,
        Error::InvalidLanguage(m) => b matches Error::InvalidLanguage(n) && n@ == m@,
        Error::ExtractionError(m) => b matches Error::ExtractionError(n) && n@ == m@,
        Error::ValidationError(m) => b matches Error::ValidationError(n) && n@ == m@,
        Error::Other(m) => b matches Error::Other(n) && n@ == m@,
        _ => b == a,
    }
}

/// A copy of an error, as [`Error::clone`] gives it, has the same
/// category and displays the same message.
pub proof fn law_clone_keeps_error(a: Error, b: Error)
    requires
        same_error(a, b),
    ensures
        error_category(b) == error_category(a),
        error_text(b) == error_text(a),
        error_prefix(b) == error_prefix(a),
        error_message(b) == error_message(a),
{
}

impl Clone for Error {
    /// A copy of the error.
    fn clone(&self) -> (r: Self)
        ensures
            same_error(*self, r),
    {
        match self {
            Error::ContentTooLarge { size, max } => Error::ContentTooLarge { size: *size, max: *max },
            Error::NestingTooDeep { depth, max } => Error::NestingTooDeep { depth: *depth, max: *max },
            Error::YamlParseError { source } => Error::YamlParseError { source: clone_arc(source) },
            Error::JsonParseError(err) => Error::JsonParseError(clone_arc(err)),
            Error::TomlParseError(err) => Error::TomlParseError(clone_toml_error(err)),
            Error::SerdeError { source } => Error::SerdeError { source: clone_arc(source) },
            Error::ConversionError(msg) => Error::ConversionError(msg.clone()),
            Error::ParseError(msg) => Error::ParseError(msg.clone()),
            Error::UnsupportedFormat { line } => Error::UnsupportedFormat { line: *line },
            Error::NoFrontmatterFound => Error::NoFrontmatterFound,
            Error::InvalidJson => Error::InvalidJson,
            Error::InvalidToml => Error::InvalidToml,
            Error::InvalidYaml => Error::InvalidYaml,
            Error::JsonDepthLimitExceeded => Error::JsonDepthLimitExceeded,
            Error::ExtractionError(msg) => Error::ExtractionError(msg.clone()),
            Error::ValidationError(msg) => Error::ValidationError(msg.clone()),
            Error::InvalidUrl(msg) => Error::InvalidUrl(msg.clone()),
            Error::InvalidLanguage(msg) => Error::InvalidLanguage(msg.clone()),
            Error::Other(msg) => Error::Other(msg.clone()),
            Error::InvalidFormat => Error::InvalidFormat,
        }
    }
}

impl Error {
    /// Returns the category of the error.
    pub fn category(&self) -> (r: Category)
        ensures
            r == error_category(*self),
    {
        match self {
            Error::ValidationError(_) => Category::Validation,
            Error::ConversionError(_) => Category::Conversion,
            Error::ContentTooLarge { .. } | Error::NestingTooDeep { .. } | Error::Other(_) =>
                Category::Configuration,
            _ => Category::Parsing,
        }
    }

    /// Creates a generic parse error with a custom message.
    pub fn generic_parse_error(message: &str) -> (r: Self)
        ensures
            r matches Error::ParseError(m) && m@ == message@,
    {
        Error::ParseError(message.to_string())
    }

    /// Creates an unsupported format error for a specific line.
    pub fn unsupported_format(line: usize) -> (r: Self)
        ensures
            r == (Error::UnsupportedFormat { line }),
    {
        Error::UnsupportedFormat { line }
    }

    /// Creates a validation error with a custom message.
    pub fn validation_error(message: &str) -> (r: Self)
        ensures
            r matches Error::ValidationError(m) && m@ == message@,
    {
        Error::ValidationError(message.to_string())
    }

    /// Adds context to a parse error: its message gets
    /// ` (line: <line>, column: <column>)` and the snippet part appended.
    /// Every other error is returned unchanged.
    pub fn with_context(self, context: &Context) -> (r: Self)
        ensures
            match self {
                Error::ParseError(m) => r matches Error::ParseError(x) && x@ == m@ + context_suffix(
                    *context,
                ),
                _ => r == self,
            },
    {
        match self {
            Error::ParseError(msg) => {
                let line = decimal_string(value_or_zero(context.line));
                let column = decimal_string(value_or_zero(context.column));
                let s = cat(cat(cat(cat(msg, " (line: "), line.as_str()), ", column: "), column.as_str());
                let s = cat(cat(s, ")"), snippet_string(&context.snippet).as_str());
                Error::ParseError(s)
            },
            _ => self,
        }
    }

    /// The error's message, as displayed.
    pub fn to_string(&self) -> (r: String)
        ensures
            r@ == error_message(*self),
    {
        match self {
            Error::ContentTooLarge { size, max } => {
                let s = cat("Your front matter contains too many fields (".to_string(), decimal_string(*size).as_str());
                let s = cat(cat(s, "). The maximum allowed is "), decimal_string(*max).as_str());
                cat(s, ".")
            },
            Error::NestingTooDeep { depth, max } => {
                let s = cat("Your front matter is nested too deeply (".to_string(), decimal_string(*depth).as_str());
                let s = cat(cat(s, " levels). The maximum allowed nesting depth is "), decimal_string(*max).as_str());
                cat(s, ".")
            },
            Error::YamlParseError { source } => {
                let t = yaml_error_text(source);
                cat("Failed to parse YAML: ".to_string(), t.as_str())
            },
            Error::TomlParseError(err) => {
                let t = toml_error_text(err);
                cat("Failed to parse TOML: ".to_string(), t.as_str())
            },
            Error::JsonParseError(err) => {
                let t = json_error_text(err);
                cat("Failed to parse JSON: ".to_string(), t.as_str())
            },
            Error::SerdeError { source } => {
                let t = json_error_text(source);
                cat("Serialization or deserialization error: ".to_string(), t.as_str())
            },
            Error::InvalidFormat => "Invalid front matter format".to_string(),
            Error::ConversionError(m) => cat("Failed to convert front matter: ".to_string(), m.as_str()),
            Error::ParseError(m) => cat("Failed to parse front matter: ".to_string(), m.as_str()),
            Error::UnsupportedFormat { line } => cat(
                "Unsupported front matter format detected at line ".to_string(),
                decimal_string(*line).as_str(),
            ),
            Error::NoFrontmatterFound => "No front matter found in the content".to_string(),
            Error::InvalidJson => "Invalid JSON front matter: malformed or invalid structure.".to_string(),
            Error::InvalidUrl(u) => cat(
                cat("Invalid URL: ".to_string(), u.as_str()),
                ". Ensure the URL is well-formed and valid.",
            ),
            Error::InvalidToml => "Invalid TOML front matter: malformed or invalid structure.".to_string(),
            Error::InvalidYaml => "Invalid YAML front matter: malformed or invalid structure.".to_string(),
            Error::InvalidLanguage(l) => cat("Invalid language code: ".to_string(), l.as_str()),
            Error::JsonDepthLimitExceeded => "JSON front matter exceeds maximum nesting depth".to_string(),
            Error::ExtractionError(m) => cat("Extraction error: ".to_string(), m.as_str()),
            Error::ValidationError(m) => cat("Input validation error: ".to_string(), m.as_str()),
            Error::Other(m) => cat("Generic error: ".to_string(), m.as_str()),
        }
    }

    /// The error for a failure of the site-generation layer: a parse error
    /// whose message names the kind of failure.
    pub fn from_engine_error(err: EngineError) -> (r: Self)
        ensures
            match err {
                EngineError::ContentError(m) => r matches Error::ParseError(x) && x@ == "Content error: "@ + m@,
                EngineError::TemplateError(m) => r matches Error::ParseError(x) && x@ == "Template error: "@ + m@,
                EngineError::AssetError(m) => r matches Error::ParseError(x) && x@ == "Asset error: "@ + m@,
                EngineError::FileSystemError { context, .. } => r matches Error::ParseError(x) && exists|t: Seq<char>|
                    x@ == "File system error: "@ + t + " ("@ + context@ + ")"@,
                EngineError::MetadataError(m) => r matches Error::ParseError(x) && x@ == "Metadata error: "@ + m@,
            },
    {
        match err {
            EngineError::ContentError(msg) => Error::ParseError(cat("Content error: ".to_string(), msg.as_str())),
            EngineError::TemplateError(msg) => Error::ParseError(cat("Template error: ".to_string(), msg.as_str())),
            EngineError::AssetError(msg) => Error::ParseError(cat("Asset error: ".to_string(), msg.as_str())),
            EngineError::FileSystemError { source, context } => {
                let t = io_error_text(&source);
                let s = cat(cat(cat("File system error: ".to_string(), t.as_str()), " ("), context.as_str());
                Error::ParseError(cat(s, ")"))
            },
            EngineError::MetadataError(msg) => Error::ParseError(cat("Metadata error: ".to_string(), msg.as_str())),
        }
    }

    /// The error for an input or output failure: a parse error with its
    /// message.
    pub fn from_io_error(err: IoError) -> (r: Self)
        ensures
            r is ParseError,
    {
        Error::ParseError(io_error_text(&err))
    }
}

/// Errors of the site-generation engine.
#[derive(Debug)]
pub enum EngineError {
    /// Error processing content files.
    ContentError(String),
    /// Error processing templates.
    TemplateError(String),
    /// Error processing assets.
    AssetError(String),
    /// Error in file system operations.
    FileSystemError {
        /// The underlying input or output error
        source: IoError,
        /// What was being done
        context: String,
    },
    /// Error processing metadata.
    MetadataError(String),
}

impl EngineError {
    /// The error's message, as displayed.
    pub fn to_string(&self) -> (r: String)
        ensures
            match *self {
                EngineError::ContentError(m) => r@ == "Content processing error: "@ + m@,
                EngineError::TemplateError(m) => r@ == "Template processing error: "@ + m@,
                EngineError::AssetError(m) => r@ == "Asset processing error: "@ + m@,
                EngineError::FileSystemError { .. } => exists|t: Seq<char>| r@ == "File system error: "@ + t,
                EngineError::MetadataError(m) => r@ == "Metadata error: "@ + m@,
            },
    {
        match self {
            EngineError::ContentError(m) => cat("Content processing error: ".to_string(), m.as_str()),
            EngineError::TemplateError(m) => cat("Template processing error: ".to_string(), m.as_str()),
            EngineError::AssetError(m) => cat("Asset processing error: ".to_string(), m.as_str()),
            EngineError::FileSystemError { source, .. } => {
                let t = io_error_text(source);
                cat("File system error: ".to_string(), t.as_str())
            },
            EngineError::MetadataError(m) => cat("Metadata error: ".to_string(), m.as_str()),
        }
    }
}

impl Clone for EngineError {
    /// A copy of the error; an input or output error is copied as a new
    /// error of the same kind and message.
    fn clone(&self) -> (r: Self)
        ensures
            match *self {
                EngineError::ContentError(m) => r matches EngineError::ContentError(x) && x@ == m@,
                EngineError::TemplateError(m) => r matches EngineError::TemplateError(x) && x@ == m@,
                EngineError::AssetError(m) => r matches EngineError::AssetError(x) && x@ == m@,
                EngineError::FileSystemError { context, .. } => r matches EngineError::FileSystemError {
                    context: c,
                    ..
                } && c@ == context@,
                EngineError::MetadataError(m) => r matches EngineError::MetadataError(x) && x@ == m@,
            },
    {
        match self {
            EngineError::ContentError(msg) => EngineError::ContentError(msg.clone()),
            EngineError::TemplateError(msg) => EngineError::TemplateError(msg.clone()),
            EngineError::AssetError(msg) => EngineError::AssetError(msg.clone()),
            EngineError::FileSystemError { source, context } => EngineError::FileSystemError {
                source: io_error_new(io_error_kind(source), io_error_text(source)),
                context: context.clone(),
            },
            EngineError::MetadataError(msg) => EngineError::MetadataError(msg.clone()),
        }
    }
}

} // verus!
