//! Inode numbers.

use vstd::prelude::*;

verus! {

/// The number of an inode.
#[derive(Debug, Clone, Copy, PartialEq, Eq, Hash, Structural)]
pub struct INodeNo(pub u64);

} // verus!
