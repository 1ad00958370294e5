//! Sticky, least-loaded assignment of named threads to a fixed pool of cores.
//!
//! A thread is a name with a priority. A core is an integer id together with
//! the threads assigned to it; its utilization is the sum of their priorities.
//! The [`allocator::Allocator`] gives every new name a core of least
//! utilization and gives the same core back for that name until the name is
//! removed. It only decides: pinning a thread to the core is the caller's part.
//!
//! Contracts are stated over [`model::AllocatorView`], the allocator as two
//! maps. What holds of every allocator beyond the contract of a single call is
//! proved in [`laws`].

pub mod allocator;
pub mod cpu_core;
pub mod distinct;
pub mod keyed;
pub mod laws;
pub mod listing;
pub mod load;
pub mod model;
pub mod pool;
pub mod text;
pub mod thread;
