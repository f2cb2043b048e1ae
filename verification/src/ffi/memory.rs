//! Sizes of buffers that are handed out to C.
use crate::math::saturating_mul;
use vstd::prelude::*;

verus! {

/// Alignment of the buffers, in bytes: one vector of 256 bits.
pub const LASX_ALIGN: usize = 32;

/// How a buffer is made.
#[derive(Clone, Copy, Debug, PartialEq, Eq, Structural)]
pub enum Allocation {
    /// An aligned address that is not to be read or written.
    Dangling {
        /// The address.
        address: usize,
    },
    /// A block of `size` bytes on a boundary of [`LASX_ALIGN`] bytes.
    Block {
        /// Number of bytes.
        size: usize,
    },
    /// More bytes than an address space has.
    Impossible,
}

/// What a buffer of `n` numbers of four bytes takes.
///
/// No numbers take no memory; their address is still aligned and not null. A negative `n`
/// asks for more than can be had.
pub fn plan_alloc(n: i32) -> (r: Allocation)
    ensures
        r == (if n == 0 {
            Allocation::Dangling { address: LASX_ALIGN }
        } else if n < 0 || 4 * n > isize::MAX - (LASX_ALIGN - 1) {
            Allocation::Impossible
        } else {
            Allocation::Block { size: (4 * n) as usize }
        }),
{
    if n == 0 {
        return Allocation::Dangling { address: LASX_ALIGN };
    }
    if n < 0 {
        return Allocation::Impossible;
    }
    let size: usize = saturating_mul(n as usize, 4);
    if size > isize::MAX as usize - (LASX_ALIGN - 1) {
        return Allocation::Impossible;
    }
    Allocation::Block { size }
}

} // verus!
