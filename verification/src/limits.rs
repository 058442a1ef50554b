//! Hard caps that bound the work of one call.

use vstd::prelude::*;

verus! {

/// Hard cap: refuse batches with more edits than this.
pub const MAX_EDITS: usize = 50;

/// Hard cap: refuse batches with more writes than this.
pub const MAX_WRITES: usize = 50;

/// Hard cap: refuse to edit or overwrite files larger than this (bytes).
pub const MAX_FILE_BYTES: u64 = 5 * 1024 * 1024;

/// Hard cap: refuse strings of a request larger than this (bytes).
pub const MAX_STRING_BYTES: usize = 2 * 1024 * 1024;

/// How many characters of each output stream of a verify command are kept.
pub const MAX_OUTPUT_CHARS: usize = 4000;

/// How many symbolic links are followed on the way to a target.
pub const MAX_HOPS: usize = 8;

/// The caps: fifty edits, fifty writes, files of five mebibytes, strings of two, four thousand
/// characters of each output stream, and eight links.
pub proof fn law_caps()
    ensures
        MAX_EDITS == 50,
        MAX_WRITES == 50,
        MAX_FILE_BYTES == 5_242_880,
        MAX_STRING_BYTES == 2_097_152,
        MAX_OUTPUT_CHARS == 4000,
        MAX_HOPS == 8,
{
}

} // verus!
