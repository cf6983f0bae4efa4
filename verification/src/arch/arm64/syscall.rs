//! AArch64 system call entry: the trap frame layout.
use vstd::prelude::*;

verus! {

/// Nothing to set up: the vector table already routes `svc`.
pub fn init() {
}

/// The call number (x8) and first three arguments (x0..x2) from a saved
/// register frame.
pub fn frame_args(frame: &[u64]) -> (r: (usize, usize, usize, usize))
    requires
        frame@.len() >= 9,
    ensures
        r == (frame@[8] as usize, frame@[0] as usize, frame@[1] as usize, frame@[2] as usize),
{
    (frame[8] as usize, frame[0] as usize, frame[1] as usize, frame[2] as usize)
}

/// The return address past the 4-byte `svc` instruction at `elr`.
pub fn next_elr(elr: u64) -> (r: u64)
    requires
        elr + 4 <= u64::MAX,
    ensures
        r == elr + 4,
{
    elr + 4
}

} // verus!
