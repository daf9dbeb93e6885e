//! The errors the tool reports.
use crate::text::{concat2, concat3, owned};
use vstd::prelude::*;

verus! {

/// An error of the tool.
#[derive(Debug, Clone, PartialEq)]
pub enum WtcdError {
    ConfigError(String),
    ParseError { file: String, reason: String },
    ScopeError(String),
    /// An I/O error, by its message.
    IoError(String),
    YamlError(String),
    UnsupportedLanguage { ext: String },
}

/// The message of an error.
pub open spec fn error_message(e: WtcdError) -> Seq<char> {
    match e {
        WtcdError::ConfigError(m) => "Configuration error: "@ + m@,
        WtcdError::ParseError { file, reason } => "Parse error in "@ + file@ + ": "@ + reason@,
        WtcdError::ScopeError(m) => "Scope error: "@ + m@,
        WtcdError::IoError(m) => "IO error: "@ + m@,
        WtcdError::YamlError(m) => "YAML parse error: "@ + m@,
        WtcdError::UnsupportedLanguage { ext } => "No language adapter found for: "@ + ext@,
    }
}

impl WtcdError {
    /// The message of the error.
    pub fn message(&self) -> (r: String)
        ensures
            r@ == error_message(*self),
    {
        match self {
            WtcdError::ConfigError(m) => concat2("Configuration error: ", m.as_str()),
            WtcdError::ParseError { file, reason } => {
                let mut r = concat3("Parse error in ", file.as_str(), ": ");
                r.append(reason.as_str());
                r
            },
            WtcdError::ScopeError(m) => concat2("Scope error: ", m.as_str()),
            WtcdError::IoError(m) => concat2("IO error: ", m.as_str()),
            WtcdError::YamlError(m) => concat2("YAML parse error: ", m.as_str()),
            WtcdError::UnsupportedLanguage { ext } => concat2("No language adapter found for: ", ext.as_str()),
        }
    }
}

} // verus!
