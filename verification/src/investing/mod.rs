pub mod depot;
pub mod depot_element;
pub mod depot_entry_table;
pub mod depot_overview;
pub mod inv_months;
pub mod inv_variant;
pub mod inv_year;
pub mod savings_plan_section;

use crate::investing::depot::Depot;
use crate::investing::depot::DepotEntry;
use vstd::prelude::*;

verus! {

/// How often the amount of a savings plan is invested.
#[derive(Debug, Clone, Copy, PartialEq, Eq, Structural)]
pub enum SavingsPlanInterval {
    Monthly,
    Annually,
}

impl SavingsPlanInterval {
    /// The name of the interval, as it is shown to the user.
    pub fn to_string(&self) -> (s: String)
        ensures
            s@ == match self {
                SavingsPlanInterval::Monthly => "Monthly"@,
                SavingsPlanInterval::Annually => "Annually"@,
            },
    {
        match self {
            SavingsPlanInterval::Monthly => String::from_str("Monthly"),
            SavingsPlanInterval::Annually => String::from_str("Annually"),
        }
    }
}

/// The investments and the growth rates to compare them with.
#[derive(Debug, Clone, PartialEq)]
pub struct Investing {
    /// User defined growth rates to compare to
    ///
    /// 5 = 5%
    ///
    /// These will be affected by all transactions that are done (planned and additional)
    pub comparisons: Vec<u8>,
    /// Key is the hash of the name of the `DepotEntry`
    ///
    /// It is NOT guaranteed that all `DepotEntry`'s have the same years.
    /// This can be ensured by running `Depot.ensure_uniform_histories()`
    ///
    /// A year always has all 12 months.
    pub depot: Depot,
}

impl Default for Investing {
    fn default() -> (i: Self)
        ensures
            i.comparisons@ == Seq::<u8>::empty(),
            i.depot.entries@ == Map::<u64, DepotEntry>::empty(),
    {
        Self { comparisons: Vec::new(), depot: Depot::new() }
    }
}

impl Investing {
    /// The key of a name: the FxHash of its UTF-8 bytes, as `Depot::name_to_key` gives it.
    pub fn name_to_key(name: &str) -> u64 {
        Depot::name_to_key(name)
    }

    pub fn add_comparison(&mut self, growth_rate: u8)
        ensures
            final(self).comparisons@ == old(self).comparisons@.push(growth_rate),
            final(self).depot == old(self).depot,
    {
        self.comparisons.push(growth_rate);
    }
}

} // verus!
