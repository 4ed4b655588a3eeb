use crate::accounting::accounting_year::AccountingYear;
use crate::accounting::recurrence::RecurringInOut;
use crate::accounting::{Accounting, GOAL_DEFAULT};
use crate::investing::depot::DepotEntry;
use crate::investing::Investing;
use vstd::prelude::*;

verus! {

/// The version of the data file layout: one integer, just counting up.
pub const FILE_VERSION: u8 = 4;

/// All data of the user, as it is stored in the data file.
#[derive(Debug, Clone, PartialEq)]
pub struct DataFile {
    /// One integer, just counting up. No x.y.z
    pub version: u8,
    pub accounting: Accounting,
    pub investing: Investing,
    /// Whether the content is written to the data file when the value is dropped
    pub write_on_drop: bool,
}

/// `data` holds no accounting and no investing data.
pub open spec fn holds_defaults(data: DataFile) -> bool {
    &&& data.version == FILE_VERSION
    &&& data.accounting.goal == GOAL_DEFAULT
    &&& data.accounting.history@ == Map::<u16, AccountingYear>::empty()
    &&& data.accounting.recurring_income@ == Seq::<RecurringInOut>::empty()
    &&& data.accounting.recurring_expenses@ == Seq::<RecurringInOut>::empty()
    &&& data.investing.comparisons@ == Seq::<u8>::empty()
    &&& data.investing.depot.entries@ == Map::<u64, DepotEntry>::empty()
}

impl Default for DataFile {
    /// Default values; the content is to be written to the data file when the value is dropped.
    fn default() -> (d: Self)
        ensures
            holds_defaults(d),
            d.write_on_drop,
    {
        Self {
            version: FILE_VERSION,
            accounting: Accounting::default(),
            investing: Investing::default(),
            write_on_drop: true,
        }
    }
}

impl DataFile {
    /// Same as `default()`, but the content is not to be written when the value is dropped.
    ///
    /// Mainly for tests, where this is not wanted
    pub fn default_no_write_on_drop() -> (d: Self)
        ensures
            holds_defaults(d),
            !d.write_on_drop,
    {
        Self {
            version: FILE_VERSION,
            accounting: Accounting::default(),
            investing: Investing::default(),
            write_on_drop: false,
        }
    }
}

} // verus!
