use vstd::prelude::*;

verus! {

/// The ways a decode or a transform computation can fail.
///
/// Every failure is fatal for the record being processed: callers abort the
/// current file and report the error, they never retry or recover partially.
#[derive(Clone, Copy, Debug, PartialEq, Eq, Structural)]
pub enum DumpError {
    /// The byte stream ended before a required field was fully read.
    Truncation,
    /// Bytes that should hold text are not valid UTF-8.
    Encoding,
    /// A count or version field violates a required invariant: no skeleton
    /// record where one is required, an embedded skeleton in a pure animation
    /// dump, no animation record, or an unrecognized format version.
    FormatViolation,
    /// A parent-chain walk exceeded the bone count without reaching a root,
    /// so the parent relation holds a cycle.
    CycleDetected,
}

impl DumpError {
    /// A short description, for callers that log failures.
    pub fn describe(&self) -> (r: &'static str)
        ensures
            self matches DumpError::Truncation ==> r@ == "stream ended before a required field"@,
            self matches DumpError::Encoding ==> r@ == "text field is not valid UTF-8"@,
            self matches DumpError::FormatViolation ==> r@ == "count or version field violates the format"@,
            self matches DumpError::CycleDetected ==> r@ == "parent links contain a cycle"@,
    {
        match self {
            DumpError::Truncation => "stream ended before a required field",
            DumpError::Encoding => "text field is not valid UTF-8",
            DumpError::FormatViolation => "count or version field violates the format",
            DumpError::CycleDetected => "parent links contain a cycle",
        }
    }
}

} // verus!
