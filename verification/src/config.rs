//! Engine-wide constants and identifier types.

use vstd::prelude::*;

verus! {

/// Logical identifier of a page. It has no arithmetic relationship to the
/// physical offset of the page in the data file.
pub type PageId = u64;

/// Identifier of an in-memory frame, assigned by the surrounding buffer pool.
pub type FrameId = usize;

/// Size in bytes of every page transferred to or from the data file.
pub const DOCKBASE_PAGE_SIZE: usize = 4096;

/// Initial capacity of the data file, in pages. The capacity doubles
/// whenever an allocation would exceed it.
pub const DEFAULT_DB_IO_SIZE: usize = 16;

} // verus!
