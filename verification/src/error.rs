use vstd::prelude::*;

verus! {

/// The conditions that abort an archive run. None of them is retried: a
/// failure mid-stream means the whole archive is invalid.
#[derive(Clone, Copy, PartialEq, Eq, Structural, Debug)]
pub enum Error {
    /// A file name's encoded byte length exceeds the 16-bit length field.
    FileNameTooBig,
    /// A single file's byte count exceeds the 32-bit size fields; the
    /// offending count is carried along.
    FileTooBig(u64),
    /// A recorded offset (local header offset or directory offset) exceeds
    /// the 32-bit offset fields.
    ArchiveTooBig,
    /// The modification date predates the format's 1980 epoch and cannot be
    /// packed into a DOS date field.
    DateBeforeEpoch,
}

} // verus!
