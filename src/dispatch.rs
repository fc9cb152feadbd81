use vstd::prelude::*;

verus! {

/// Files below this size, in bytes, take the light path: no progress note.
pub const SMALL_FILE_LIMIT: usize = 524288;

pub open spec fn small(size: Option<usize>) -> bool {
    size is Some && size->0 < SMALL_FILE_LIMIT
}

/// Whether a file of the given size, where known, is small.
pub fn is_small(size: Option<usize>) -> (r: bool)
    ensures
        r == small(size),
{
    match size {
        Some(n) => n < SMALL_FILE_LIMIT,
        None => false,
    }
}

/// Whether a note is written before the file is read: only in verbose mode,
/// and only for files that are large or of unknown size.
pub fn announces_progress(size: Option<usize>, verbose: bool) -> (r: bool)
    ensures
        r == (verbose && !small(size)),
{
    verbose && !is_small(size)
}

} // verus!
