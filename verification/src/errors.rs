//! Errors raised by the channel registry and by weaving.
use vstd::prelude::*;
use vstd::string::StringExecFns;

verus! {

/// Errors that can occur during registry operations.
#[derive(Debug, PartialEq, Eq)]
pub enum RegistryError {
    KeyNotFound(String),
    CycleDetected(String),
    DuplicateOutputKey(String),
    MissingProducer(String),
    TypeMismatch { key: String, expected: &'static str, found: &'static str },
}

/// The human-readable message of an error.
pub open spec fn error_text(e: RegistryError) -> Seq<char> {
    match e {
        RegistryError::KeyNotFound(key) => "Key '"@ + key@ + "' not found in registry"@,
        RegistryError::CycleDetected(details) => "Cycle detected in registry: "@ + details@,
        RegistryError::DuplicateOutputKey(key) => "Duplicate output key '"@ + key@
            + "' in registry"@,
        RegistryError::MissingProducer(err) => "Missing producer error: "@ + err@,
        RegistryError::TypeMismatch { key, expected, found } => "Type mismatch for key '"@ + key@
            + "': expected "@ + expected@ + ", found "@ + found@,
    }
}

impl RegistryError {
    /// The human-readable message of the error.
    pub fn to_string(&self) -> (r: String)
        ensures
            r@ == error_text(*self),
    {
        match self {
            RegistryError::KeyNotFound(key) => {
                let mut s = "Key '".to_owned();
                s.append(key.as_str());
                s.append("' not found in registry");
                s
            },
            RegistryError::CycleDetected(details) => {
                let mut s = "Cycle detected in registry: ".to_owned();
                s.append(details.as_str());
                s
            },
            RegistryError::DuplicateOutputKey(key) => {
                let mut s = "Duplicate output key '".to_owned();
                s.append(key.as_str());
                s.append("' in registry");
                s
            },
            RegistryError::MissingProducer(err) => {
                let mut s = "Missing producer error: ".to_owned();
                s.append(err.as_str());
                s
            },
            RegistryError::TypeMismatch { key, expected, found } => {
                let mut s = "Type mismatch for key '".to_owned();
                s.append(key.as_str());
                s.append("': expected ");
                s.append(expected);
                s.append(", found ");
                s.append(found);
                s
            },
        }
    }
}

} // verus!
