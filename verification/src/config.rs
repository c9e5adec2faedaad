//! Constants shared by the kernel model. Addresses and page numbers are
//! 64-bit quantities of the SV39 scheme and are held as `u64`.
use vstd::prelude::*;

verus! {

/// Size of one page in bytes.
pub const PAGE_SIZE: u64 = 4096;

/// Number of bits of the in-page offset.
pub const PAGE_SIZE_BITS: u64 = 12;

/// Width of a virtual address under SV39 paging.
pub const VA_WIDTH_SV39: u64 = 39;

/// Number of distinct virtual pages under SV39 paging (`2^27`).
pub const VPN_LIMIT: u64 = 0x800_0000;

/// One past the largest virtual address under SV39 paging (`2^39`).
pub const VA_LIMIT: u64 = 0x80_0000_0000;

/// Largest system-call number that is counted per task (exclusive).
pub const MAX_SYSCALL_NUM: usize = 500;

/// Largest virtual address that a user program may hand to `trace`.
pub const MAX_USER_VA: u64 = 0x3f_ffff_ffff;

} // verus!
