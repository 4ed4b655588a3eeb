use crate::investing::depot::{month_count_outcome, oldest_year_of, Depot, DepotEntry};
use crate::investing::Investing;
use crate::text::{decimal, parse_u8, parse_usize, parsed_unsigned, two_digits, year_month_label};
use vstd::prelude::*;

verus! {

/// What the buttons next to the comparisons of the overview do.
#[derive(Debug, Clone, Copy, PartialEq, Eq, Structural)]
pub enum ComparisonAction {
    Add,
    Remove,
}

/// The growth rate (in percent) a new comparison starts with.
pub const NEW_COMPARISON_RATE: u8 = 7;

/// The comparisons after `action`: one with 7% added at the end, or the last one removed
/// (if there is one).
pub open spec fn after_comparison_action(comparisons: Seq<u8>, action: ComparisonAction) -> Seq<u8> {
    match action {
        ComparisonAction::Add => comparisons.push(NEW_COMPARISON_RATE),
        ComparisonAction::Remove => if comparisons.len() == 0 {
            comparisons
        } else {
            comparisons.drop_last()
        },
    }
}

/// Removing a comparison undoes adding one.
pub proof fn law_remove_undoes_add(comparisons: Seq<u8>)
    ensures
        after_comparison_action(
            after_comparison_action(comparisons, ComparisonAction::Add),
            ComparisonAction::Remove,
        ) == comparisons,
{
    assert(comparisons.push(NEW_COMPARISON_RATE).drop_last() =~= comparisons);
}

/// Adds a comparison (7%) at the end, or removes the last one (if there is one).
pub fn depot_overview_do_comparison_action(investing: &mut Investing, action: ComparisonAction)
    ensures
        final(investing).comparisons@ == after_comparison_action(old(investing).comparisons@, action),
        final(investing).depot == old(investing).depot,
{
    match action {
        ComparisonAction::Add => investing.comparisons.push(NEW_COMPARISON_RATE),
        ComparisonAction::Remove => {
            let _ = investing.comparisons.pop();
        },
    }
}

/// Sets the growth rate of comparison number `comparison_id` (counted from 0) to `new_value`.
///
/// Returns `false`, and changes nothing, if `new_value` is not the text of a `u8` or
/// `comparison_id` not the text of a `usize`; with both read, an id without a comparison
/// changes nothing either, but `true` is returned.
pub fn depot_overview_change_comparison(
    investing: &mut Investing,
    comparison_id: &str,
    new_value: &str,
) -> (r: bool)
    ensures
        r == (parsed_unsigned(new_value@, u8::MAX as int) is Some && parsed_unsigned(
            comparison_id@,
            usize::MAX as int,
        ) is Some),
        final(investing).comparisons@ == if r && parsed_unsigned(comparison_id@, usize::MAX as int).unwrap()
            < old(investing).comparisons@.len() {
            old(investing).comparisons@.update(
                parsed_unsigned(comparison_id@, usize::MAX as int).unwrap(),
                parsed_unsigned(new_value@, u8::MAX as int).unwrap() as u8,
            )
        } else {
            old(investing).comparisons@
        },
        final(investing).depot == old(investing).depot,
{
    let new_value = match parse_u8(new_value) {
        Some(v) => v,
        None => return false,
    };
    let comparison_id = match parse_usize(comparison_id) {
        Some(i) => i,
        None => return false,
    };
    if comparison_id < investing.comparisons.len() {
        investing.comparisons.set(comparison_id, new_value);
    }
    true
}

/// The label of month number `i` (counted from 0) of a chart that starts in January of
/// `oldest_year`: `year-month` with the month in two digits, such as `2023-01`.
pub open spec fn alltime_label(oldest_year: int, i: int) -> Seq<char> {
    decimal((oldest_year + i / 12) as nat) + "-"@ + two_digits((i % 12 + 1) as nat)
}

/// Each label is that of its month, in a chart that starts in January of `oldest_year`.
pub open spec fn are_alltime_labels(labels: Seq<String>, oldest_year: int) -> bool {
    forall|i: int| 0 <= i < labels.len() ==> #[trigger] labels[i]@ == alltime_label(oldest_year, i)
}

/// The labels of `month_count` months, starting in January of `oldest_year`:
/// `['2023-01', '2023-02', '2023-03', ...]`
pub fn alltime_labels(oldest_year: u16, month_count: usize) -> (labels: Vec<String>)
    ensures
        labels@.len() == month_count,
        are_alltime_labels(labels@, oldest_year as int),
{
    let mut labels: Vec<String> = Vec::new();
    let mut i: usize = 0;
    while i < month_count
        invariant
            i <= month_count,
            labels@.len() == i,
            forall|j: int| 0 <= j < i ==> #[trigger] labels@[j]@ == alltime_label(oldest_year as int, j),
        decreases month_count - i,
    {
        let year = oldest_year as usize + (i / 12);
        let month = (i % 12) + 1;
        labels.push(year_month_label(year, month));
        i += 1;
    }
    labels
}

/// The labels that `depot_overview_alltime_get_labels` gives when the clock reads
/// `current_month` of `current_year`: one for each month that
/// `Depot::get_oldest_year_and_total_month_count` counts, from January of the oldest year on;
/// none where it gives `None`.
pub open spec fn alltime_labels_at(
    entries: Map<u64, DepotEntry>,
    current_year: u16,
    current_month: u8,
    labels: Seq<String>,
) -> bool {
    match month_count_outcome(entries, current_year, current_month) {
        None => labels.len() == 0,
        Some((_, _, count)) => {
            &&& labels.len() == count
            &&& are_alltime_labels(labels, oldest_year_of(entries).unwrap() as int)
        },
    }
}

/// The labels of all months of the depot, from January of its oldest year up to the current
/// month (read from the system clock): `['2023-01', '2023-02', '2023-03', ...]`.
///
/// Returns an empty Vec, if there is no data available
pub fn depot_overview_alltime_get_labels(depot: &Depot) -> (labels: Vec<String>)
    ensures
        exists|current_year: u16, current_month: u8|
            1 <= current_month <= 12 && #[trigger] alltime_labels_at(
                depot.entries@,
                current_year,
                current_month,
                labels@,
            ),
        oldest_year_of(depot.entries@) is None ==> labels@.len() == 0,
        labels@.len() > 0 ==> oldest_year_of(depot.entries@) is Some,
        labels@.len() > 0 ==> are_alltime_labels(
            labels@,
            oldest_year_of(depot.entries@).unwrap() as int,
        ),
{
    let r = depot.get_oldest_year_and_total_month_count();
    let ghost (current_year, current_month) = choose|current_year: u16, current_month: u8|
        1 <= current_month <= 12 && r == #[trigger] month_count_outcome(
            depot.entries@,
            current_year,
            current_month,
        );
    match r {
        // All depot entries have no history so there is no data
        None => {
            let labels = Vec::new();
            assert(alltime_labels_at(depot.entries@, current_year, current_month, labels@));
            labels
        },
        Some((oldest_date, _, month_count)) => {
            let labels = alltime_labels(oldest_date.year(), month_count);
            assert(alltime_labels_at(depot.entries@, current_year, current_month, labels@));
            labels
        },
    }
}

} // verus!
