use vstd::prelude::*;

verus! {

/// The grammar rule that rejected a line.
#[derive(Clone, Copy, Debug, PartialEq, Eq, Structural)]
pub enum ErrorKind {
    /// Digits missing where a number starts, or a number too large for its type.
    MalformedNumber,
    /// An `index:value` pair without its `:`, or with a bad index or value.
    MalformedIndexedValue,
    /// An article block without its `|`, its identifier or the space after it.
    MalformedArticleBlock,
    /// A top-level field, literal or separator out of place, or trailing bytes.
    MalformedLine,
}

/// A failure to parse, with the byte offset at which the failing rule stood.
#[derive(Clone, Copy, Debug, PartialEq, Eq, Structural)]
pub struct ParseError {
    pub kind: ErrorKind,
    pub pos: usize,
}

pub open spec fn err_at(kind: ErrorKind, pos: int) -> ParseError {
    ParseError { kind, pos: pos as usize }
}

} // verus!
