//! The ways in which reading an archive fails.

use vstd::prelude::*;

verus! {

/// The kind of an input/output failure.
#[derive(Clone, Copy, PartialEq, Eq, Debug, Structural)]
pub enum IoKind {
    /// something was not found
    NotFound,
    /// the operation was not permitted
    PermissionDenied,
    /// something exists that must not
    AlreadyExists,
    /// the operation would have to wait
    WouldBlock,
    /// a parameter was wrong, or a packed stream is corrupt
    InvalidInput,
    /// the data do not fit the operation
    InvalidData,
    /// the time for the operation ran out
    TimedOut,
    /// nothing could be written
    WriteZero,
    /// the operation was interrupted
    Interrupted,
    /// the operation is not supported
    Unsupported,
    /// the bytes ended before a value was complete
    UnexpectedEof,
    /// the memory ran out
    OutOfMemory,
    /// any other kind
    Other,
}

/// The error type of the reader.
#[allow(non_camel_case_types)]
#[derive(Debug, PartialEq, Eq)]
pub enum Error {
    /// key hash is an incorrect length
    Aes,
    /// the Oodle decoder reported a failure
    OodleLZ_Decompress,
    /// input/output failure, with its kind
    Io(IoKind),
    /// the bytes of a string are not UTF-8
    Utf8,
    /// the code units of a string are not UTF-16
    Utf16,
    /// a buffered writer could not be taken apart
    IntoInner,
    /// the archive is encrypted and the reader cannot decrypt
    Encryption,
    /// the archive is compressed by a method that the reader cannot undo
    Compression,
    /// the entry is compressed with Oodle, which the reader does not have
    Oodle,
    /// a flag byte was neither 0 nor 1
    Bool(u8),
    /// the trailer does not hold the magic number (the sign of a wrong version)
    Magic(u32),
    /// the archive is encrypted but no key was given
    Encrypted,
    /// the archive could not be read as any version
    Parse,
    /// no entry has this path
    Missing(String),
    /// the trailer stores another ordinal than the version asked for
    Version(u32),
    /// any other failure, in words
    Other(String),
}

impl Error {
    /// Whether the error tells a reader that tries one version after another
    /// to go on with the next. Only four errors do: a trailer without the
    /// magic number, a trailer with the ordinal of another version, bytes
    /// that end too early, and memory that runs out. Every other error ends
    /// the search and is handed to the caller.
    pub open spec fn wrong_guess(self) -> bool {
        match self {
            Error::Magic(_) => true,
            Error::Version(_) => true,
            Error::Io(kind) => kind == IoKind::UnexpectedEof || kind == IoKind::OutOfMemory,
            _ => false,
        }
    }

    /// Whether a reader that tries one version after another goes on after
    /// this error.
    pub fn is_wrong_guess(&self) -> (r: bool)
        ensures
            r == self.wrong_guess(),
    {
        match self {
            // read with the layout of another version
            Error::Magic(_) | Error::Version(_) => true,
            Error::Io(kind) => match kind {
                // eof or out of memory would indicate a wrong version
                IoKind::UnexpectedEof | IoKind::OutOfMemory => true,
                _ => false,
            },
            _ => false,
        }
    }
}

} // verus!
