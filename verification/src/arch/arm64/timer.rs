//! ARMv8 generic timer programming: one tick every freq / 100 counts.
use vstd::prelude::*;

verus! {

/// Tick rate in Hz.
pub const TIMER_HZ: u64 = 100;

/// A timer control register.
#[derive(Clone, Copy, PartialEq, Eq, Debug, Structural)]
pub enum TimerReg {
    /// CNTP_CTL_EL0: bit 0 enable, bit 1 mask.
    Ctl,
    /// CNTP_TVAL_EL0: countdown value.
    Tval,
}

/// One register write.
#[derive(Clone, Copy, PartialEq, Eq, Debug, Structural)]
pub struct TimerWrite {
    pub reg: TimerReg,
    pub value: u64,
}

/// Counts per tick for a counter running at `freq` Hz.
pub fn interval(freq: u64) -> (r: u64)
    ensures
        r == freq / TIMER_HZ,
{
    freq / TIMER_HZ
}

/// The writes that start the timer: disable, load one interval, enable.
pub fn init(freq: u64) -> (r: Vec<TimerWrite>)
    ensures
        r@ == seq![
            TimerWrite { reg: TimerReg::Ctl, value: 0 },
            TimerWrite { reg: TimerReg::Tval, value: freq / TIMER_HZ },
            TimerWrite { reg: TimerReg::Ctl, value: 1 },
        ],
{
    let iv = interval(freq);
    let mut r: Vec<TimerWrite> = Vec::new();
    r.push(TimerWrite { reg: TimerReg::Ctl, value: 0 });
    r.push(TimerWrite { reg: TimerReg::Tval, value: iv });
    r.push(TimerWrite { reg: TimerReg::Ctl, value: 1 });
    r
}

/// The write that reloads the countdown on a timer interrupt.
pub fn handle_irq(freq: u64) -> (r: TimerWrite)
    ensures
        r == (TimerWrite { reg: TimerReg::Tval, value: freq / TIMER_HZ }),
{
    TimerWrite { reg: TimerReg::Tval, value: interval(freq) }
}

} // verus!
