//! A streaming USTAR tar archive writer.
//!
//! The library builds valid POSIX USTAR archives incrementally: each entry
//! (directory or file) is turned into a 512-byte header block, file bodies
//! are followed by zero padding up to the next 512-byte boundary, and the
//! archive ends with two all-zero 512-byte blocks.  The writer never holds
//! the whole archive in memory: it hands the caller the exact byte chunks
//! (header, padding, terminator) to push into a byte sink, in order, while
//! the caller streams each file body between them.
use vstd::prelude::*;

pub mod bytes;
pub mod header;
pub mod packer;

verus! {

/// The ways an archive operation can fail.
///
/// Only `PathTooLong` arises inside the library itself (the USTAR name field
/// holds at most 100 bytes and no long-name fallback is implemented).  The
/// remaining kinds name failures at the byte-sink/source boundary, so that a
/// host driving the writer can report them in the library's vocabulary.
#[derive(Clone, Copy, Debug, PartialEq, Eq)]
pub enum TarError {
    /// The entry path does not fit the 100-byte USTAR name field.
    PathTooLong,
    /// The byte sink rejected a write or failed to close.
    SinkRejected,
    /// A file body source failed mid-transfer.
    SourceFailed,
    /// An operation was attempted after the archive was finished.
    InvalidPostFinishUse,
}

} // verus!
