//! The closed set of errors of the reconciliation core.
//!
//! The core never prints: a presentation layer turns these values into
//! text.  A malformed manifest line is reported loudly instead of being
//! skipped, because silently dropping a line of a backup manifest would
//! lose a discrepancy.

use vstd::prelude::*;

verus! {

/// An error of the reconciliation core.  Line numbers count from one.
#[derive(Clone, Copy, Debug, PartialEq, Eq, Structural)]
pub enum LibError {
    /// A manifest line does not have the shape `path<TAB>modified<TAB>size`
    /// with an optional fourth `content-hash` field: wrong number of
    /// fields, an empty path or hash field, or a stray line break.
    MalformedFields { line_number: usize },
    /// The second field of a manifest line is no `%Y-%m-%dT%H:%M:%SZ`
    /// timestamp.
    InvalidTimestamp { line_number: usize },
    /// The third field of a manifest line is no canonical decimal byte
    /// count of at most nineteen digits.
    InvalidSize { line_number: usize },
    /// A content hash that the comparison needed could not be computed.
    HashUnavailable { entry_index: usize },
}

impl LibError {
    /// The description of the error: a fixed text per kind, followed
    /// by the line number or entry position in decimal.
    pub fn message(&self) -> (r: String)
        ensures
            r@ == match *self {
                LibError::MalformedFields { line_number } => "malformed manifest line at line "@
                    + crate::text::dec_digits(line_number as int),
                LibError::InvalidTimestamp { line_number } => "invalid timestamp at line "@
                    + crate::text::dec_digits(line_number as int),
                LibError::InvalidSize { line_number } => "invalid size at line "@
                    + crate::text::dec_digits(line_number as int),
                LibError::HashUnavailable { entry_index } => "content hash unavailable for entry "@
                    + crate::text::dec_digits(entry_index as int),
            },
    {
        let txt: &str = match self {
            LibError::MalformedFields { .. } => "malformed manifest line at line ",
            LibError::InvalidTimestamp { .. } => "invalid timestamp at line ",
            LibError::InvalidSize { .. } => "invalid size at line ",
            LibError::HashUnavailable { .. } => "content hash unavailable for entry ",
        };
        let number: u64 = match self {
            LibError::MalformedFields { line_number } => *line_number as u64,
            LibError::InvalidTimestamp { line_number } => *line_number as u64,
            LibError::InvalidSize { line_number } => *line_number as u64,
            LibError::HashUnavailable { entry_index } => *entry_index as u64,
        };
        let mut s = txt.to_owned();
        let d = crate::text::u64_to_string(number);
        s.append(d.as_str());
        s
    }
}

} // verus!
