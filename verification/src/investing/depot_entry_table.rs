use crate::current_date::CurrentDate;
use crate::investing::depot::{is_first_year, is_last_year, same_but_history, Depot, DepotEntry};
use crate::investing::inv_variant::{lowercase, variant_named, InvestmentVariant};
use crate::investing::inv_year::InvestmentYear;
use crate::text::{parse_u64, parsed_unsigned};
use std::collections::hash_map::Entry;
use vstd::prelude::*;
use vstd::string::StrSliceExecFns;

verus! {

/// The values of a month that can be edited in the table of a depot entry.
#[derive(Debug, Clone, Copy, PartialEq, Eq, Structural)]
pub enum InvestmentMonthFields {
    Amount,
    PricePerUnit,
    AdditionalTransactions,
}

/// A month's values (month number, amount, price per unit, additional transactions)
/// with the value of `field` replaced by `value`.
pub open spec fn with_field(m: (u8, u64, u64, u64), field: InvestmentMonthFields, value: u64) -> (
    u8,
    u64,
    u64,
    u64,
) {
    match field {
        InvestmentMonthFields::Amount => (m.0, value, m.2, m.3),
        InvestmentMonthFields::PricePerUnit => (m.0, m.1, value, m.3),
        InvestmentMonthFields::AdditionalTransactions => (m.0, m.1, m.2, value),
    }
}

/// `new` is `old` with the value of `field` in month `month` (1-12) set to `value`.
pub open spec fn cell_set(
    old: InvestmentYear,
    new: InvestmentYear,
    month: int,
    field: InvestmentMonthFields,
    value: u64,
) -> bool {
    &&& new.year_nr == old.year_nr
    &&& new.months@[month - 1]@ == with_field(old.months@[month - 1]@, field, value)
    &&& forall|i: int| 0 <= i < 12 && i != month - 1 ==> #[trigger] new.months@[i] == old.months@[i]
}

/// The key that the text of a depot entry's hash stands for: the `u64` that `str::parse` reads.
pub open spec fn parsed_key(hash: Seq<char>) -> Option<u64> {
    match parsed_unsigned(hash, u64::MAX as int) {
        Some(v) => Some(v as u64),
        None => None,
    }
}

/// `new` is `old` where only the entry under `k` changed, and only in its history.
pub open spec fn only_history_changed(
    old: Map<u64, DepotEntry>,
    new: Map<u64, DepotEntry>,
    k: u64,
) -> bool {
    &&& old.contains_key(k)
    &&& new == old.insert(k, new[k])
    &&& same_but_history(old[k], new[k])
}

/// Why the table of a depot entry cannot be shown.
#[derive(Debug, Clone, Copy, PartialEq, Eq, Structural)]
pub enum DepotEntryTableError {
    /// The hash is not the text of a `u64`
    UnparsableHash,
    /// No depot entry has this hash
    NoSuchEntry,
}

/// Whether the hash is the text of a key of the depot whose entry holds the year `year`.
pub fn depot_entry_holds_year(depot: &Depot, depot_entry_hash: &str, year: u16) -> (r: bool)
    ensures
        r == (parsed_key(depot_entry_hash@) matches Some(k) && depot.entries@.contains_key(k)
            && depot.entries@[k].spec_history().contains_key(year)),
{
    let key = match parse_u64(depot_entry_hash) {
        Some(k) => k,
        None => return false,
    };
    match depot.entries.get(&key) {
        Some(entry) => entry.holds_year(year),
        None => false,
    }
}

/// Sets one value of one month (1-12) in the table of a depot entry.
///
/// Returns `false` if either
/// - the hash could not be parsed
/// - no `DepotEntry` with `depot_entry_hash` exists
/// - there is no entry for the given `year` in this `DepotEntry`
///
/// The given value was only saved, if true is returned
pub fn set_depot_entry_table_cell(
    depot: &mut Depot,
    depot_entry_hash: &str,
    field: InvestmentMonthFields,
    value: u64,
    year: u16,
    month: usize,
) -> (r: bool)
    requires
        1 <= month <= 12,
    ensures
        r == (parsed_key(depot_entry_hash@) matches Some(k) && old(depot).entries@.contains_key(k)
            && old(depot).entries@[k].spec_history().contains_key(year)),
        r ==> {
            let k = parsed_key(depot_entry_hash@).unwrap();
            let before = old(depot).entries@[k].spec_history();
            let after = final(depot).entries@[k].spec_history();
            &&& only_history_changed(old(depot).entries@, final(depot).entries@, k)
            &&& after == before.insert(year, after[year])
            &&& cell_set(before[year], after[year], month as int, field, value)
        },
        !r ==> final(depot).entries@ == old(depot).entries@,
{
    // JS does not support 64 bit Ints without using BigInt and BigInt cannot be serialized.
    let key = match parse_u64(depot_entry_hash) {
        Some(k) => k,
        None => return false,
    };
    match depot.entries.entry(key) {
        Entry::Occupied(occupied) => occupied.into_mut().set_month_value(year, month, field, value),
        Entry::Vacant(_) => false,
    }
}

/// Finds the depot entry of a table and makes sure the latest year of its history is
/// `current_year` (see `DepotEntry::ensure_current_year`). Returns the entry's key.
pub fn prepare_depot_entry_table_in_year(
    depot: &mut Depot,
    depot_entry_hash: &str,
    current_year: u16,
) -> (r: Result<u64, DepotEntryTableError>)
    ensures
        parsed_key(depot_entry_hash@) is None ==> r == Err::<u64, DepotEntryTableError>(
            DepotEntryTableError::UnparsableHash,
        ),
        parsed_key(depot_entry_hash@) matches Some(k) && !old(depot).entries@.contains_key(k)
            ==> r == Err::<u64, DepotEntryTableError>(DepotEntryTableError::NoSuchEntry),
        parsed_key(depot_entry_hash@) matches Some(k) ==> (old(depot).entries@.contains_key(k)
            ==> r == Ok::<u64, DepotEntryTableError>(k)),
        r is Err ==> final(depot).entries@ == old(depot).entries@,
        r matches Ok(k) ==> {
            let before = old(depot).entries@[k].spec_history();
            let after = final(depot).entries@[k].spec_history();
            &&& parsed_key(depot_entry_hash@) == Some(k)
            &&& only_history_changed(old(depot).entries@, final(depot).entries@, k)
            &&& is_last_year(before, current_year) ==> after == before
            &&& !is_last_year(before, current_year) ==> after == before.insert(
                current_year,
                after[current_year],
            ) && after[current_year].is_default_for(current_year)
        },
{
    // JS does not natively support 64 bit Ints. This would need BigInt, but BigInt cannot be serialized by serde
    let key = match parse_u64(depot_entry_hash) {
        Some(k) => k,
        None => return Err(DepotEntryTableError::UnparsableHash),
    };
    match depot.entries.entry(key) {
        Entry::Occupied(occupied) => {
            occupied.into_mut().ensure_current_year(current_year);
            Ok(key)
        },
        Entry::Vacant(_) => Err(DepotEntryTableError::NoSuchEntry),
    }
}

/// As `prepare_depot_entry_table_in_year`, with the current year read once from the system clock.
pub fn prepare_depot_entry_table(depot: &mut Depot, depot_entry_hash: &str) -> (r: Result<
    u64,
    DepotEntryTableError,
>)
    ensures
        parsed_key(depot_entry_hash@) is None ==> r == Err::<u64, DepotEntryTableError>(
            DepotEntryTableError::UnparsableHash,
        ),
        parsed_key(depot_entry_hash@) matches Some(k) && !old(depot).entries@.contains_key(k)
            ==> r == Err::<u64, DepotEntryTableError>(DepotEntryTableError::NoSuchEntry),
        parsed_key(depot_entry_hash@) matches Some(k) ==> (old(depot).entries@.contains_key(k)
            ==> r == Ok::<u64, DepotEntryTableError>(k)),
        r is Err ==> final(depot).entries@ == old(depot).entries@,
        r matches Ok(k) ==> {
            let before = old(depot).entries@[k].spec_history();
            let after = final(depot).entries@[k].spec_history();
            &&& parsed_key(depot_entry_hash@) == Some(k)
            &&& only_history_changed(old(depot).entries@, final(depot).entries@, k)
            &&& exists|current_year: u16|
                #[trigger] after.contains_key(current_year) && (is_last_year(before, current_year)
                    ==> after == before) && (!is_last_year(before, current_year) ==> after
                    == before.insert(current_year, after[current_year])
                    && after[current_year].is_default_for(current_year))
        },
{
    let current_year = CurrentDate::current_year();
    let r = prepare_depot_entry_table_in_year(depot, depot_entry_hash, current_year);
    proof {
        if let Ok(k) = r {
            let before = old(depot).entries@[k].spec_history();
            let after = depot.entries@[k].spec_history();
            assert(after.contains_key(current_year));
        }
    }
    r
}

/// Adds the year before the oldest year to the history of a depot entry, with no values.
///
/// Returns `false`, and changes nothing, if the hash could not be parsed, no `DepotEntry`
/// with `depot_entry_hash` exists, or its history is empty.
pub fn add_depot_entrys_previous_year(depot: &mut Depot, depot_entry_hash: &str) -> (r: bool)
    requires
// the year before year 0 does not exist

        match parsed_key(depot_entry_hash@) {
            Some(k) => old(depot).entries@.contains_key(k) ==> !old(
                depot,
            ).entries@[k].spec_history().contains_key(0),
            None => true,
        },
    ensures
        r == (parsed_key(depot_entry_hash@) matches Some(k) && old(depot).entries@.contains_key(k)
            && !old(depot).entries@[k].spec_history().dom().is_empty()),
        r ==> {
            let k = parsed_key(depot_entry_hash@).unwrap();
            let before = old(depot).entries@[k].spec_history();
            let after = final(depot).entries@[k].spec_history();
            &&& only_history_changed(old(depot).entries@, final(depot).entries@, k)
            &&& exists|y: u16|
                #[trigger] is_first_year(before, y) && after == before.insert(
                    (y - 1) as u16,
                    after[(y - 1) as u16],
                ) && after[(y - 1) as u16].is_default_for((y - 1) as u16)
        },
        !r ==> final(depot).entries@ == old(depot).entries@,
{
    let key = match parse_u64(depot_entry_hash) {
        Some(k) => k,
        None => return false,
    };
    match depot.entries.entry(key) {
        Entry::Occupied(occupied) => occupied.into_mut().add_previous_year(),
        Entry::Vacant(_) => false,
    }
}

/// Adds a depot entry named `name` of the variant named `variant` (case is ignored),
/// holding the current year without values; an entry of the same name is replaced.
///
/// Returns `false`, and changes nothing, if the name is empty or the variant unknown.
pub fn add_depot_entry(depot: &mut Depot, name: &str, variant: &str) -> (r: bool)
    ensures
        r == (name@.len() > 0 && variant_named(lowercase(variant@)) is Some),
        r ==> exists|key: u64|
            {
                let e = #[trigger] final(depot).entries@[key];
                &&& final(depot).entries@ == old(depot).entries@.insert(key, e)
                &&& e.spec_name() == name@
                &&& Some(e.spec_variant()) == variant_named(lowercase(variant@))
                &&& e.spec_savings_plan().len() == 0
                &&& exists|y: u16|
                    e.spec_history().dom() == set![y] && #[trigger] e.spec_history()[y].is_default_for(
                        y,
                    )
            },
        !r ==> final(depot).entries@ == old(depot).entries@,
{
    if name.unicode_len() == 0 {
        return false;
    }
    let variant = match InvestmentVariant::from_str(variant) {
        Ok(v) => v,
        Err(_) => return false,
    };
    let key = Depot::name_to_key(name);
    let entry = DepotEntry::default_with_current_year(name, variant);
    depot.add_entry_at(key, entry);
    assert(depot.entries@[key] == entry);
    true
}

/// Removes a depot entry.
///
/// Returns `false`, and changes nothing, if the hash could not be parsed or no `DepotEntry`
/// with `depot_entry_hash` exists.
pub fn delete_depot_entry(depot: &mut Depot, depot_entry_hash: &str) -> (r: bool)
    ensures
        r == (parsed_key(depot_entry_hash@) matches Some(k) && old(depot).entries@.contains_key(
            k,
        )),
        r ==> final(depot).entries@ == old(depot).entries@.remove(
            parsed_key(depot_entry_hash@).unwrap(),
        ),
        !r ==> final(depot).entries@ == old(depot).entries@,
{
    let key = match parse_u64(depot_entry_hash) {
        Some(k) => k,
        None => return false,
    };
    match depot.entries.remove(&key) {
        Some(_) => true,
        None => false,
    }
}

} // verus!
