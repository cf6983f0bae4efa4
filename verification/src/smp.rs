//! Per-core data for symmetric multiprocessing.
use vstd::prelude::*;

verus! {

pub const MAX_CORES: usize = 64;

/// A discovered CPU core.
#[derive(Debug, Clone, Copy, PartialEq, Eq, Structural)]
pub struct CpuInfo {
    pub apic_id: u32,
    pub core_id: usize,
    pub is_bsp: bool,
}

/// Per-core data reached through GS; `core_id` comes first.
#[derive(Clone, Copy, PartialEq, Eq, Structural)]
pub struct PerCpuData {
    pub core_id: usize,
    pub apic_id: u32,
    pub _pad0: u32,
    pub current_task: usize,
    pub kernel_stack_top: usize,
}

impl PerCpuData {
    /// All zero.
    pub fn new() -> (d: Self)
        ensures
            d == (PerCpuData { core_id: 0, apic_id: 0, _pad0: 0, current_task: 0, kernel_stack_top: 0 }),
    {
        PerCpuData { core_id: 0, apic_id: 0, _pad0: 0, current_task: 0, kernel_stack_top: 0 }
    }
}

} // verus!
