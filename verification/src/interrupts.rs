//! Interrupt handling types.
use vstd::prelude::*;

verus! {

/// The frame the CPU pushes on an interrupt; handlers only need its address.
pub struct InterruptStackFrame;

} // verus!
