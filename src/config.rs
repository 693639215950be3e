//! Run-time settings of the allocation proxy.
use vstd::prelude::*;

verus! {

/// One mebibyte.
pub const MEBIBYTE: usize = 1048576;

/// Default growth of a thread's usage between two spike reports: 512 MiB.
pub const REPORT_USAGE_INTERVAL: usize = 536870912;

/// Settings of the proxy: whether stacks are sampled at all, and how much a
/// thread's usage must grow past the last report before the next one.
#[derive(Clone, Copy, Debug, PartialEq, Eq, Structural)]
pub struct AllocatorConfig {
    pub stack_trace: bool,
    pub report_usage_interval: usize,
}

impl Default for AllocatorConfig {
    fn default() -> (r: AllocatorConfig)
        ensures
            r == (AllocatorConfig { stack_trace: true, report_usage_interval: REPORT_USAGE_INTERVAL }),
    {
        AllocatorConfig { stack_trace: true, report_usage_interval: REPORT_USAGE_INTERVAL }
    }
}

impl AllocatorConfig {
    /// Turns sampling of return addresses on or off.
    pub fn enable_stack_trace(self, value: bool) -> (r: AllocatorConfig)
        ensures
            r == (AllocatorConfig { stack_trace: value, ..self }),
    {
        AllocatorConfig { stack_trace: value, ..self }
    }

    /// Sets how far a thread's usage must grow past the last report before a
    /// spike is reported again.
    pub fn set_report_usage_interval(self, value: usize) -> (r: AllocatorConfig)
        ensures
            r == (AllocatorConfig { report_usage_interval: value, ..self }),
    {
        AllocatorConfig { report_usage_interval: value, ..self }
    }
}

} // verus!
