use vstd::prelude::*;

verus! {

/// The ways a decode can fail.  Every failure is terminal for the decode
/// that raised it: no partial mesh is ever handed out next to an error.
#[derive(Clone, Copy, Debug, PartialEq, Eq, Structural)]
pub enum Error {
    /// The file could not be opened at all.  Raised only by callers that
    /// do the actual file handling; the decoders in this crate never
    /// produce it.
    PathError,
    /// A read fell short: the input ended before the bytes the format
    /// demands at that point (a probe shorter than the header, a binary
    /// body truncated below what the declared count implies, or a text
    /// line that is not valid UTF-8 and so cannot be read as a line).
    ReadError,
    /// The bytes are not valid for the variant being decoded: a
    /// coordinate token with no numeric value.
    FormatError,
    /// A grammar violation in the text variant: a significant line with
    /// the wrong number of tokens, a fourth vertex in one facet, or an
    /// `endfacet` before three vertices were seen.
    StructuralError,
}

} // verus!
