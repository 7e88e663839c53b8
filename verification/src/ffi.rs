//! Types that cross the boundary to the C side of the file system.

use vstd::prelude::*;

verus! {

/// The file information the file system callbacks receive; the callbacks do
/// not read it.
#[derive(Debug)]
pub struct FuseFileInfo {}

} // verus!
