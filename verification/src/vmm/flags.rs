//! Flags of a page-table entry.
use vstd::prelude::*;

verus! {

/// Bit 0: the page (or next-level table) is present.
pub const PRESENT: u64 = 0x1;
/// Bit 1: the page may be written.
pub const WRITABLE: u64 = 0x2;
/// Bit 2: the page is reachable from ring 3.
pub const USER: u64 = 0x4;
/// Bit 63: instruction fetches from the page are not allowed.
pub const NO_EXECUTE: u64 = 0x8000_0000_0000_0000;

} // verus!
