//! A verified core of a physical/virtual memory introspection pipeline.
//!
//! The crate models the chain that turns virtual-address read and write
//! requests into connector-level physical accesses: page-table translation,
//! a direct-mapped physical page cache with a two-phase validation protocol,
//! a page-chunk splitter, a guest-physical memory map, and a virtual-memory
//! facade composing them.

pub mod architecture;
pub mod buffer;
pub mod cache;
pub mod mem_map;
pub mod mmu;
pub mod offsets;
pub mod page_chunks;
pub mod phys_mem;
pub mod translate;
pub mod types;
pub mod virt_mem;
pub mod win32;

pub use types::{Address, Error, Page, PageType, PhysicalAddress};
