//! Verified core of a small x86_64 kernel: the physical frame allocator, the
//! heap's free-list allocator, the page-table walk, and the descriptor tables
//! and port programming sequences of the boot path.
use vstd::prelude::*;

pub mod allocator;
pub mod gdt;
pub mod heap;
pub mod idt;
pub mod pic;
pub mod pit;
pub mod vmm;

