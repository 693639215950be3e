//! Memory introspection: an allocation proxy that embeds a small header in
//! front of every block it hands out, and the analysis that reads those
//! headers back out of a live process and attributes resident memory to the
//! functions that allocated it.
use vstd::prelude::*;

pub mod analyze;
pub mod config;
pub mod counters;
pub mod header;
pub mod proxy;
pub mod sampler;
pub mod smaps;
pub mod symbols;
pub mod text;
pub mod tracking;

verus! {

/// A small record of the kind that an instrumented program keeps many of.
pub struct MyData {
    pub xx: usize,
}

} // verus!
