//! Build-time parameters of the kernel core.

use vstd::prelude::*;

verus! {

/// Size of one storage block, in bytes.
pub const BSIZE: usize = 1024;

/// Default number of slots in the buffer cache pool.
pub const NBUF: usize = 30;

} // verus!
