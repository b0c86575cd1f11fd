use vstd::prelude::*;

verus! {

/// Values of the file header that the rest of the decoder needs.
#[derive(Debug, Clone, Copy, PartialEq, Eq, Structural)]
pub struct HeaderData {
    pub version: u8,
    pub big_endian: bool,
    pub word_len: u8,
    pub word_offset: u8,
}

/// Everything that can go wrong while decoding a dump.
#[derive(Debug, Clone, PartialEq, Eq)]
pub enum GhwParseError {
    /// The file is compressed (`"gzip"` or `"bzip2"`).
    UnsupportedCompression(&'static str),
    /// The leading signature bytes are not those of an uncompressed dump.
    UnexpectedHeaderMagic(Vec<u8>),
    /// A header field holds a value that this decoder does not accept.
    UnexpectedHeader(HeaderData),
    /// A section tag (or end tag) that is not allowed where it was found.
    UnexpectedSection(Vec<u8>),
    /// A type kind that cannot stand where it was found.
    UnexpectedType(u8, &'static str),
    /// A section whose contents break the format; names the section and the problem.
    FailedToParseSection(&'static str, &'static str),
    /// A 32-bit count or offset that was negative.
    ExpectedPositiveInteger(i64),
    /// A byte that names no known type kind, hierarchy kind or well-known type.
    FailedToParseKindTag(u8),
    /// A variable-length integer that does not fit in 64 bits.
    Leb128Overflow,
    /// The input ended before the decoder was done.
    UnexpectedEof,
}

/// How a read fails, as far as the bytes decide it: at an unexpected tag (its bytes), with a
/// given error, or in some other way that is not named here.
pub enum Fault {
    Tag(Seq<u8>),
    Error(GhwParseError),
    Unnamed,
}

/// Whether the error `e` is the one that `f` names.
pub open spec fn fails_as(e: GhwParseError, f: Fault) -> bool {
    match f {
        Fault::Tag(t) => e matches GhwParseError::UnexpectedSection(m) && m@ == t,
        Fault::Error(x) => e == x,
        Fault::Unnamed => true,
    }
}

} // verus!
