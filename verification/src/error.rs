//! The ways in which a transfer or a plan run fails.

use vstd::prelude::*;

verus! {

/// The kind of a failure. Every failure ends the run at once: nothing is
/// retried and nothing that was already done is undone.
#[derive(Clone, Copy, Debug, PartialEq, Eq, Structural)]
pub enum ErrorKind {
    /// The stream does not start with the magic bytes and the version, or a
    /// length field is not a 64-bit varint.
    ProtocolError,
    /// The stream announces another number of files than the plan expects.
    CountMismatch,
    /// The names received are not the names that the plan lists.
    FileListMismatch,
    /// A frame asks for compression.
    UnsupportedFeature,
    /// A frame declares a name longer than the limit.
    NameTooLong,
    /// A name is not text.
    InvalidName,
    /// A frame declares more content than the limit.
    FileTooLarge,
    /// The input ended before a field was complete.
    TruncatedInput,
    /// The content does not have the declared checksum.
    ChecksumMismatch,
    /// A step needs what an earlier step should have left, and it is not there.
    StateMissing,
    /// A command exited with a status other than zero.
    CommandFailure,
    /// A file or directory could not be created or renamed.
    FilesystemError,
    /// No plan was named, or the named plan does not exist.
    ConfigError,
}

impl ErrorKind {
    /// Whether the process may still end successfully after this failure:
    /// true of a missing or unknown plan only.
    pub open spec fn recoverable(self) -> bool {
        self == ErrorKind::ConfigError
    }

    /// Whether the process may still end successfully after this failure.
    pub fn is_recoverable(&self) -> (r: bool)
        ensures
            r == self.recoverable(),
    {
        matches!(self, ErrorKind::ConfigError)
    }
}

} // verus!
