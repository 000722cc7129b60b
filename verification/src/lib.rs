//! Helper library for managing a directory of locally cloned AUR package
//! sources.
//!
//! The library holds the decision logic of the tool: batch results are
//! partitioned into successes and failures, build artifacts are selected by
//! modification time, directory listings are classified, and the interactive
//! confirmation answer is interpreted.  All process spawning, file system
//! access and network traffic stay outside; callers hand the outcomes in as
//! plain values.

use vstd::prelude::*;

pub mod cli;
pub mod dir_func;
pub mod pkg_info;

verus! {

/// A view of a sequence of strings as a sequence of character sequences,
/// used to state set-level contracts over path contents.
pub open spec fn seq_views(s: Seq<String>) -> Seq<Seq<char>> {
    s.map_values(|x: String| x@)
}

} // verus!
