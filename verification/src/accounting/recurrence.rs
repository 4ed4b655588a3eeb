use vstd::prelude::*;

verus! {

/// The unit of time a recurring income or expense is counted in.
#[derive(Debug, Clone, Copy, PartialEq, Eq, Structural)]
pub enum Recurrence {
    Day,
    Week,
    Month,
    Year,
}

/// An income or expense that happens again and again.
#[derive(Debug, Clone, PartialEq, Eq)]
pub struct RecurringInOut {
    pub name: String,
    /// always positive; held as the bit pattern of an `f64` (`f64::to_bits`)
    pub quantity: u64,
    pub recurrence: Recurrence,
    /// after how many Days/Weeks/Months/Years does this happen again
    pub interval: u16,
    /// how often does this happen per interval
    pub frequency: u16,
}

} // verus!
