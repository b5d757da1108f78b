use vstd::prelude::*;

verus! {

/// Failure taxonomy of the container pass. Every error aborts the whole pass:
/// the format has no redundancy that would allow resynchronisation.
#[derive(Clone, Copy, Debug, PartialEq, Eq, Structural)]
pub enum Error {
    /// A field could not be read because the input ended inside it.
    IoError,
    /// Unrecognised magic, version or enumerated wire value.
    FormatError,
    /// The file is valid but carries no checksums, so there is nothing to corrupt.
    ConfigError,
    /// A block's declared region claims more bytes than remain in the input.
    TruncatedFileError,
}

} // verus!
