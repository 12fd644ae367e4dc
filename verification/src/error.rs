use vstd::prelude::*;

verus! {

/// The ways an operation on a task document can fail.
#[derive(Debug, Clone, Copy, PartialEq, Eq, Structural)]
pub enum OpenFocusErrorType {
    /// A malformed file name, zip container, XML stream, or field value,
    /// or a record missing a mandatory field.
    Parse,
    /// A required item does not exist, for instance a chain with no root.
    NotFound,
    /// The archive chain is forked, cyclic, or does not reach every archive.
    InvalidChain,
    /// Caller misuse, for instance writing before the document is loaded.
    InvalidArgument,
    /// A failure with no more precise classification.
    Unknown,
}

/// An error raised by this crate: the kind of failure and, where it helps,
/// the offending input (for instance a file name that failed to parse).
#[derive(Debug, Clone)]
pub struct OpenFocusError {
    pub kind: OpenFocusErrorType,
    pub detail: Option<String>,
}

impl OpenFocusError {
    pub fn new(kind: OpenFocusErrorType) -> (r: OpenFocusError)
        ensures
            r.kind == kind,
            r.detail is None,
    {
        OpenFocusError { kind, detail: None }
    }

    pub fn with_detail(kind: OpenFocusErrorType, detail: String) -> (r: OpenFocusError)
        ensures
            r.kind == kind,
            r.detail matches Some(d) && d@ == detail@,
    {
        OpenFocusError { kind, detail: Some(detail) }
    }

    /// A short description of the failure kind.
    pub fn message(&self) -> (r: &'static str)
        ensures
            self.kind == OpenFocusErrorType::Parse ==> r@ == "Parse Error"@,
            self.kind == OpenFocusErrorType::NotFound ==> r@ == "Item Not Found Error"@,
            self.kind == OpenFocusErrorType::InvalidChain ==> r@ == "Invalid Archive Chain"@,
            self.kind == OpenFocusErrorType::InvalidArgument ==> r@ == "Invalid Argument"@,
            self.kind == OpenFocusErrorType::Unknown ==> r@ == "Unknown Error"@,
    {
        match self.kind {
            OpenFocusErrorType::Parse => "Parse Error",
            OpenFocusErrorType::NotFound => "Item Not Found Error",
            OpenFocusErrorType::InvalidChain => "Invalid Archive Chain",
            OpenFocusErrorType::InvalidArgument => "Invalid Argument",
            OpenFocusErrorType::Unknown => "Unknown Error",
        }
    }
}

} // verus!
