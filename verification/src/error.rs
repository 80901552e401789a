//! What can go wrong while watching or reading.

use vstd::prelude::*;

verus! {

/// `std::io::Error`, carried through as the operating system gave it. Nothing
/// is claimed of what it holds.
#[verifier::external_type_specification]
#[verifier::external_body]
pub struct ExIoError(std::io::Error);

/// Why the watches for a target could not be installed, or had to be given
/// up.
#[derive(Debug)]
pub enum WatchError {
    /// A system call failed.
    Io(std::io::Error),
    /// Symlinks among the directories led on for more rounds than allowed.
    MaxIterationExceeded,
    /// A path on the way ends in `..`, so it names no entry to look out for
    /// in the directory that holds it.
    NoFileName,
    /// The root was reported to be a symlink with a relative target.
    NoParent,
    /// The reply does not answer the request that was made.
    UnexpectedReply,
    /// The kernel handed over a record that ends before its name does.
    Truncated,
}

/// Why the target could not be turned into a value.
#[derive(Debug)]
pub enum FileWatcherError<E> {
    /// The file could not be read.
    Io(std::io::Error),
    /// The parser refused what was read.
    Parse(E),
}

} // verus!
