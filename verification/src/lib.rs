//! A memory allocator for hosts without a system heap. It serves every
//! request from memory that the host reserved beforehand, in bounded steps.
//!
//! Addresses are plain integers. Nothing here dereferences one: the bump
//! region owns the bytes of its span, and the slab allocator leaves the
//! bytes of its memory to the first-fit heap that owns them.
//!
//! - [`region`]: a span `[start, end)` with a cursor; allocation advances
//!   the cursor, and only the block handed out last can be reclaimed.
//! - [`size_class`]: requests, and the ascending table of block sizes by
//!   which they are classified.
//! - [`fallback`]: the first-fit heap of `linked_list_allocator`, and what
//!   is taken for granted of it.
//! - [`slab`]: one free list per size class, last in first out, kept beside
//!   the memory; and the allocator that routes each request to the list of
//!   its class or to the heap.
//! - [`invariants`]: what stays true of the slab allocator from one
//!   operation to the next.
//! - [`span`]: blocks as sets of addresses.
//! - [`error`]: why an operation did not do what was asked.

pub mod error;
pub mod fallback;
pub mod invariants;
pub mod region;
pub mod size_class;
pub mod slab;
pub mod span;
