pub mod accounting_month;
pub mod accounting_year;
pub mod recurrence;

use crate::accounting::accounting_year::AccountingYear;
use crate::accounting::recurrence::RecurringInOut;
use std::collections::BTreeMap;
use vstd::prelude::*;

verus! {

/// The bit pattern of the `f64` value `1.0`.
pub const GOAL_DEFAULT: u64 = 0x3FF0_0000_0000_0000;

/// `BTreeMap::get_mut`: a mutable reference to the year under `year_nr`, if there is one;
/// what is written through it is what the map holds under that key afterwards.
#[verifier::external_body]
fn year_mut(history: &mut BTreeMap<u16, AccountingYear>, year_nr: u16) -> (r: Option<
    &mut AccountingYear,
>)
    ensures
        match r {
            Some(y) => {
                &&& old(history)@.contains_key(year_nr)
                &&& *y == old(history)@[year_nr]
                &&& final(history)@ == old(history)@.insert(year_nr, *final(y))
            },
            None => {
                &&& !old(history)@.contains_key(year_nr)
                &&& final(history)@ == old(history)@
            },
        },
{
    history.get_mut(&year_nr)
}

/// Income and expenses of all years, with the goal and the recurring items.
#[derive(Debug, Clone, PartialEq)]
pub struct Accounting {
    /// Represents the maximum percentage a user wants to spend of their income (per month/year);
    /// held as the bit pattern of an `f64` (`f64::to_bits`), `1.0` is 100%
    pub goal: u64,
    pub history: BTreeMap<u16, AccountingYear>,
    pub recurring_income: Vec<RecurringInOut>,
    pub recurring_expenses: Vec<RecurringInOut>,
}

impl Accounting {
    /// The goal is 100% (the bits of `1.0`); no history and no recurring items.
    pub fn default() -> (a: Self)
        ensures
            a.goal == GOAL_DEFAULT,
            a.history@ == Map::<u16, AccountingYear>::empty(),
            a.recurring_income@ == Seq::<RecurringInOut>::empty(),
            a.recurring_expenses@ == Seq::<RecurringInOut>::empty(),
    {
        Self {
            goal: GOAL_DEFAULT,
            history: BTreeMap::new(),
            recurring_income: Vec::new(),
            recurring_expenses: Vec::new(),
        }
    }

    /// - if the year does not already exist, adds it to the history with default values
    /// - changes nothing if the year exists
    /// - returns the year as a mutable reference, which allows function chaining:
    ///   `accounting.add_or_get_year(2023).insert_or_overwrite_month(...)`
    pub fn add_or_get_year(&mut self, year_nr: u16) -> (y: &mut AccountingYear)
        ensures
            old(self).history@.contains_key(year_nr) ==> *y == old(self).history@[year_nr],
            !old(self).history@.contains_key(year_nr) ==> y.is_default_for(year_nr),
            final(self).history@ == old(self).history@.insert(year_nr, *final(y)),
            final(self).goal == old(self).goal,
            final(self).recurring_income@ == old(self).recurring_income@,
            final(self).recurring_expenses@ == old(self).recurring_expenses@,
    {
        if self.history.contains_key(&year_nr) == false {
            self.history.insert(year_nr, AccountingYear::default(year_nr));
        }
        year_mut(&mut self.history, year_nr).unwrap()
    }
}

} // verus!
