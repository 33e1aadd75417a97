//! Errors of the library, with the text each one is reported with.
use vstd::prelude::*;
use crate::text::{concat2, concat3};

verus! {

/// What went wrong.
#[derive(Debug)]
pub enum SeamError {
    /// `validate` found no seam record file under the root.
    NoSeamFiles,
    /// `graph` found no seam record file under the root.
    NoSeamRecords,
    /// `graph` was asked for an output format other than `json` or `dot`.
    UnsupportedFormat(String),
    /// A text is not JSON; the parser's message.
    Json(String),
    /// The schema does not compile; the compiler's message.
    SchemaCompile(String),
    /// The schema has references that compiling or validating might follow
    /// without end, or one that cannot be followed to be sure of it.
    SchemaUnsupported,
}

/// The text an error is reported with.
pub open spec fn error_message(e: SeamError) -> Seq<char> {
    match e {
        SeamError::NoSeamFiles => "no *.seam.json files found under seams/records or targets/**/seams/records"@,
        SeamError::NoSeamRecords => "no seam records found"@,
        SeamError::UnsupportedFormat(f) => "unsupported format: "@ + f@ + " (use json|dot)"@,
        SeamError::Json(m) => m@,
        SeamError::SchemaCompile(m) => "schema compile failed: "@ + m@,
        SeamError::SchemaUnsupported => "schema not supported: some chain of $ref could be followed without end, or a $ref is not a local JSON pointer that can be followed"@,
    }
}

impl SeamError {
    /// The text this error is reported with.
    pub fn message(&self) -> (r: String)
        ensures
            r@ == error_message(*self),
    {
        match self {
            SeamError::NoSeamFiles => String::from_str(
                "no *.seam.json files found under seams/records or targets/**/seams/records",
            ),
            SeamError::NoSeamRecords => String::from_str("no seam records found"),
            SeamError::UnsupportedFormat(f) => concat3("unsupported format: ", f.as_str(), " (use json|dot)"),
            SeamError::Json(m) => String::from_str(m.as_str()),
            SeamError::SchemaCompile(m) => concat2("schema compile failed: ", m.as_str()),
            SeamError::SchemaUnsupported => String::from_str(
                "schema not supported: some chain of $ref could be followed without end, or a $ref is not a local JSON pointer that can be followed",
            ),
        }
    }
}

} // verus!
