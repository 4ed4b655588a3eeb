//! Personal finance bookkeeping: compact calendar dates, a depot of investments
//! with savings plans and a monthly accounting history.

pub mod accounting;
pub mod csv_reader;
pub mod current_date;
pub mod datafile;
pub mod fast_date;
pub mod flatpak;
pub mod investing;
pub mod plain_date;
pub mod sanitize;
pub mod structs;
pub mod text;

pub use crate::accounting::accounting_month::AccountingMonth;
pub use crate::accounting::Accounting;
pub use crate::current_date::CurrentDate;
pub use crate::datafile::DataFile;
pub use crate::fast_date::FastDate;
pub use crate::investing::depot::DepotEntry;
pub use crate::sanitize::SanitizeInput;

use crate::investing::depot::Depot;
use crate::investing::inv_variant::InvestmentVariant;
use crate::investing::inv_year::InvestmentYear;
use vstd::prelude::*;

verus! {

/// Adds a sample depot entry, a stock named `name 123` that holds the year 2023 without
/// values, in place of an entry of that name (under the key of the name, see
/// `Depot::name_to_key`).
pub fn generate_depot_entry(depot: &mut Depot)
    ensures
        exists|key: u64|
            {
                let e = #[trigger] final(depot).entries@[key];
                &&& final(depot).entries@ == old(depot).entries@.insert(key, e)
                &&& e.spec_name() == "name 123"@
                &&& e.spec_variant() == InvestmentVariant::Stock
                &&& e.spec_savings_plan().len() == 0
                &&& e.spec_history().dom() == set![2023u16]
                &&& e.spec_history()[2023].is_default_for(2023)
            },
{
    let key = Depot::name_to_key("name 123");
    depot.add_entry_at(key, DepotEntry::default("name 123", InvestmentVariant::Stock));
    match depot.get_entry_mut(key) {
        Some(investment) => {
            investment.insert_year(2023, InvestmentYear::default(2023));
        },
        None => {},
    }
    assert(depot.entries@ == old(depot).entries@.insert(key, depot.entries@[key]));
}

} // verus!
