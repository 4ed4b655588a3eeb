use finanzbuch::accounting::accounting_month::AccountingMonth;
use finanzbuch::accounting::accounting_year::AccountingYear;
use finanzbuch::accounting::Accounting;
use finanzbuch::current_date::CurrentDate;
use finanzbuch::datafile::FILE_VERSION;
use finanzbuch::fast_date::FastDate;
use finanzbuch::generate_depot_entry;
use finanzbuch::investing::depot::Depot;
use finanzbuch::investing::depot_entry_table::add_depot_entry;
use finanzbuch::investing::depot_entry_table::add_depot_entrys_previous_year;
use finanzbuch::investing::depot_entry_table::delete_depot_entry;
use finanzbuch::investing::depot_entry_table::depot_entry_holds_year;
use finanzbuch::investing::depot_entry_table::prepare_depot_entry_table_in_year;
use finanzbuch::investing::depot_entry_table::set_depot_entry_table_cell;
use finanzbuch::investing::depot_entry_table::DepotEntryTableError;
use finanzbuch::investing::depot_entry_table::InvestmentMonthFields;
use finanzbuch::investing::depot_overview::alltime_labels;
use finanzbuch::investing::depot_overview::depot_overview_alltime_get_labels;
use finanzbuch::investing::depot_overview::depot_overview_change_comparison;
use finanzbuch::investing::depot_overview::depot_overview_do_comparison_action;
use finanzbuch::investing::depot_overview::ComparisonAction;
use finanzbuch::investing::inv_months::InvestmentMonth;
use finanzbuch::investing::inv_variant::InvestmentVariant;
use finanzbuch::investing::inv_year::InvestmentYear;
use finanzbuch::investing::savings_plan_section::SavingsPlanSection;
use finanzbuch::investing::Investing;
use finanzbuch::investing::SavingsPlanInterval;
use finanzbuch::structs::YamlFile;
use finanzbuch::structs::Year;
use finanzbuch::DataFile;
use finanzbuch::DepotEntry;
use finanzbuch::SanitizeInput;
use std::collections::BTreeMap;
use std::collections::HashMap;
use finanzbuch::investing::depot_element::DepotElement;
use finanzbuch::plain_date::FastDate as PlainDate;

fn section(start: (u16, u8, u8), end: (u16, u8, u8), interval: SavingsPlanInterval) -> SavingsPlanSection {
    SavingsPlanSection {
        start: FastDate::new_risky(start.0, start.1, start.2),
        end: FastDate::new_risky(end.0, end.1, end.2),
        amount: 25.0f64.to_bits(),
        interval,
    }
}

fn entry_with_years(name: &str, years: &[u16]) -> DepotEntry {
    let mut history = BTreeMap::new();
    for y in years {
        history.insert(*y, InvestmentYear::default(*y));
    }
    DepotEntry::new(InvestmentVariant::Fund, String::from(name), vec![], history)
}

// ---------- FastDate ----------

#[test]
fn fast_date_order_is_calendar_order() {
    let dates = [
        FastDate::new(1999, 12, 31).unwrap(),
        FastDate::new(2000, 1, 1).unwrap(),
        FastDate::new(2000, 1, 31).unwrap(),
        FastDate::new(2000, 2, 1).unwrap(),
        FastDate::new(2000, 12, 31).unwrap(),
        FastDate::new(2001, 1, 1).unwrap(),
    ];
    for i in 0..dates.len() {
        for j in 0..dates.len() {
            assert_eq!(dates[i] < dates[j], i < j);
            assert_eq!(dates[i] == dates[j], i == j);
        }
    }
}

#[test]
fn fast_date_layout_and_limits() {
    let d = FastDate::new(2023, 7, 9).unwrap();
    assert_eq!(d.raw(), (2023 << 16) | (7 << 12) | (9 << 6) | 28);
    assert_eq!(FastDate::default().date(), (2000, 1, 1, 1));
    assert_eq!(FastDate::new_max().date(), (65535, 12, 31, 53));
    assert_eq!(FastDate::new_risky(2024, 3, 1).date(), (2024, 3, 1, 9));
    assert!(FastDate::new(2023, 0, 1).is_err());
    assert!(FastDate::new(2023, 1, 0).is_err());
}

#[test]
fn fast_date_setters_recompute_week() {
    let mut d = FastDate::new(2023, 1, 1).unwrap();
    assert!(d.set_month(12).is_ok());
    assert_eq!(d.date(), (2023, 12, 1, 48));
    assert!(d.set_day(31).is_ok());
    assert_eq!(d.date(), (2023, 12, 31, 53));
    d.set_year(1990);
    assert_eq!(d.date(), (1990, 12, 31, 53));
    let before = d;
    assert!(d.set_month(13).is_err());
    assert!(d.set_day(32).is_err());
    assert_eq!(d, before);
}

// ---------- text ----------

#[test]
fn hashes_are_read_as_decimal_numbers() {
    let mut depot = Depot::new();
    depot.add_entry("a", entry_with_years("a", &[2023]));
    let key = Depot::name_to_key("a");
    assert!(depot_entry_holds_year(&depot, &key.to_string(), 2023));
    assert!(depot_entry_holds_year(&depot, &format!("+{key}"), 2023));
    assert!(!depot_entry_holds_year(&depot, &format!("-{key}"), 2023));
    assert!(!depot_entry_holds_year(&depot, &format!("{key}0"), 2023));
    assert!(!depot_entry_holds_year(&depot, "", 2023));
    assert!(!depot_entry_holds_year(&depot, &key.to_string(), 2024));
}

#[test]
fn number_chars_filters_and_is_idempotent() {
    let once = SanitizeInput::number_chars("a-1,5b+2.0 €");
    assert_eq!(once, "-1.5+2.0");
    assert_eq!(SanitizeInput::number_chars(&once), once);
    assert_eq!(SanitizeInput::number_chars(""), "");
    assert_eq!(SanitizeInput::number_chars("abc"), "");
}

// ---------- variants ----------

#[test]
fn variant_name_parses_back() {
    let all = [
        InvestmentVariant::Stock,
        InvestmentVariant::Fund,
        InvestmentVariant::Etf,
        InvestmentVariant::Bond,
        InvestmentVariant::Option,
        InvestmentVariant::Commoditiy,
        InvestmentVariant::Crypto,
    ];
    for v in all {
        assert_eq!(InvestmentVariant::from_str(&v.to_string()), Ok(v));
    }
    assert_eq!(InvestmentVariant::from_str("eTF"), Ok(InvestmentVariant::Etf));
    assert_eq!(InvestmentVariant::from_str("STOCK"), Ok(InvestmentVariant::Stock));
}

#[test]
fn variant_unknown_name_is_an_error() {
    assert_eq!(
        InvestmentVariant::from_str("Gold"),
        Err(String::from("Gold is not a possible InvestmentVariant"))
    );
    assert_eq!(SavingsPlanInterval::Annually.to_string(), "Annually");
    assert_eq!(SavingsPlanInterval::Monthly.to_string(), "Monthly");
}

// ---------- depot ----------

#[test]
fn name_to_key_is_deterministic_and_tells_names_apart() {
    assert_eq!(Depot::name_to_key("Depot 1"), Depot::name_to_key("Depot 1"));
    assert_ne!(Depot::name_to_key("Depot 1"), Depot::name_to_key("Depot 2"));
    assert_eq!(Investing::name_to_key("abc"), Depot::name_to_key("abc"));
}

#[test]
fn get_entry_mut_from_str_changes_the_stored_entry() {
    let mut depot = Depot::new();
    depot.add_entry("x", DepotEntry::default("x", InvestmentVariant::Bond));
    assert!(depot.get_entry_mut_from_str("y").is_none());
    depot.get_entry_mut_from_str("x").unwrap().variant = InvestmentVariant::Crypto;
    assert_eq!(depot.get_entry_from_str("x").unwrap().variant, InvestmentVariant::Crypto);
}

#[test]
fn oldest_year_and_month_count() {
    let mut depot = Depot::new();
    depot.add_entry("a", entry_with_years("a", &[2023, 2024]));
    depot.add_entry("b", entry_with_years("b", &[2022]));
    depot.add_entry("c", entry_with_years("c", &[]));
    assert_eq!(depot.get_oldest_year(), Some(2022));
    let (start, end, count) = depot.get_oldest_year_and_total_month_count_at(2024, 3).unwrap();
    assert_eq!(start.date(), (2022, 1, 1, 1));
    assert_eq!(end.date(), (2024, 3, 1, 9));
    assert_eq!(count, 27);
    assert_eq!(Depot::new().get_oldest_year_and_total_month_count_at(2024, 3), None);
}

#[test]
fn uniform_histories_fill_every_entry() {
    let mut depot = Depot::new();
    depot.add_entry("a", entry_with_years("a", &[2021]));
    depot.add_entry("b", entry_with_years("b", &[2023]));
    depot.ensure_uniform_histories_until(2023);
    for name in ["a", "b"] {
        let years: Vec<u16> = depot.get_entry_from_str(name).unwrap().history.keys().copied().collect();
        assert_eq!(years, vec![2021, 2022, 2023]);
    }
    let mut empty = Depot::new();
    empty.add_entry("c", entry_with_years("c", &[]));
    empty.ensure_uniform_histories_until(2030);
    let years: Vec<u16> = empty.get_entry_from_str("c").unwrap().history.keys().copied().collect();
    assert_eq!(years, vec![2030]);
}

#[test]
fn uniform_histories_share_later_years() {
    let mut depot = Depot::new();
    depot.add_entry("a", entry_with_years("a", &[2022, 2030]));
    depot.add_entry("b", entry_with_years("b", &[2023]));
    depot.ensure_uniform_histories_until(2024);
    for name in ["a", "b"] {
        let years: Vec<u16> = depot.get_entry_from_str(name).unwrap().history.keys().copied().collect();
        assert_eq!(years, vec![2022, 2023, 2024, 2030]);
    }
}

#[test]
fn uniform_histories_reach_the_last_year() {
    let mut depot = Depot::new();
    depot.add_entry("a", entry_with_years("a", &[65533]));
    depot.add_entry("b", entry_with_years("b", &[]));
    depot.ensure_uniform_histories_until(u16::MAX);
    for name in ["a", "b"] {
        let years: Vec<u16> = depot.get_entry_from_str(name).unwrap().history.keys().copied().collect();
        assert_eq!(years, vec![65533, 65534, 65535]);
    }
}

#[test]
fn uniform_histories_up_to_the_clock() {
    let mut depot = Depot::new();
    depot.add_entry("a", entry_with_years("a", &[2021]));
    depot.add_entry("b", entry_with_years("b", &[2023]));
    depot.ensure_uniform_histories();
    let current_year = CurrentDate::current_year();
    let expected: Vec<u16> = (2021..=current_year).collect();
    for name in ["a", "b"] {
        let years: Vec<u16> = depot.get_entry_from_str(name).unwrap().history.keys().copied().collect();
        assert_eq!(years, expected);
    }
}

#[test]
fn month_count_and_labels_up_to_the_clock() {
    let mut depot = Depot::new();
    depot.add_entry("a", entry_with_years("a", &[2021]));
    let (start, end, count) = depot.get_oldest_year_and_total_month_count().unwrap();
    let current_year = CurrentDate::current_year();
    let current_month = CurrentDate::current_month();
    assert_eq!((start.year(), start.month()), (2021, 1));
    assert_eq!((end.year(), end.month()), (current_year, current_month));
    let expected = (current_year as usize + 1 - 2021) * 12 - (12 - current_month as usize);
    assert_eq!(count, expected);
    let labels = depot_overview_alltime_get_labels(&depot);
    assert_eq!(labels.len(), expected);
    assert_eq!(labels[0], "2021-01");
    assert_eq!(labels[12], "2022-01");
    assert!(depot_overview_alltime_get_labels(&Depot::new()).is_empty());
}

#[test]
fn generate_depot_entry_adds_the_sample() {
    let mut depot = Depot::new();
    generate_depot_entry(&mut depot);
    let e = depot.get_entry_from_str("name 123").unwrap();
    assert_eq!(e.variant, InvestmentVariant::Stock);
    assert_eq!(e.history.len(), 1);
    assert_eq!(e.history.get(&2023), Some(&InvestmentYear::default(2023)));
}

// ---------- savings plan ----------

#[test]
fn savings_plan_errors() {
    let mut de = DepotEntry::default("n", InvestmentVariant::Etf);
    // end before start
    let backwards = section((2023, 5, 1), (2023, 4, 1), SavingsPlanInterval::Monthly);
    assert_eq!(de.add_savings_plan_section(backwards), Err(None));
    assert!(de.savings_plan().is_empty());

    let first = section((2023, 1, 1), (2023, 12, 31), SavingsPlanInterval::Monthly);
    assert_eq!(de.add_savings_plan_section(first), Ok(()));
    // the existing section that is touched is returned
    let touching = section((2023, 12, 31), (2024, 6, 1), SavingsPlanInterval::Monthly);
    assert_eq!(de.add_savings_plan_section(touching), Err(Some(first)));
    assert_eq!(de.savings_plan(), &[first]);
}

#[test]
fn savings_plan_stays_sorted_and_apart() {
    let mut de = DepotEntry::default("n", InvestmentVariant::Etf);
    let late = section((2025, 1, 1), (2025, 12, 31), SavingsPlanInterval::Monthly);
    let early = section((2020, 1, 1), (2020, 12, 31), SavingsPlanInterval::Monthly);
    let middle = section((2022, 1, 1), (2022, 12, 31), SavingsPlanInterval::Monthly);
    assert_eq!(de.add_savings_plan_section(late), Ok(()));
    assert_eq!(de.add_savings_plan_section(early), Ok(()));
    assert_eq!(de.savings_plan(), &[early, late]);
    assert_eq!(de.add_savings_plan_section(middle), Ok(()));
    assert_eq!(de.savings_plan(), &[early, middle, late]);
}

#[test]
fn savings_plan_section_is_entered_once_before_later_sections() {
    let mut de = DepotEntry::default("n", InvestmentVariant::Etf);
    let s0 = section((2023, 1, 1), (2023, 12, 31), SavingsPlanInterval::Monthly);
    let s1 = section((2025, 1, 1), (2025, 12, 31), SavingsPlanInterval::Monthly);
    let new = section((2022, 6, 1), (2022, 12, 31), SavingsPlanInterval::Monthly);
    assert_eq!(de.add_savings_plan_section(s1), Ok(()));
    assert_eq!(de.add_savings_plan_section(s0), Ok(()));
    assert_eq!(de.add_savings_plan_section(new), Ok(()));
    assert_eq!(de.savings_plan(), &[new, s0, s1]);
    // a section between the two goes between them, once
    let between = section((2024, 2, 1), (2024, 11, 30), SavingsPlanInterval::Monthly);
    assert_eq!(de.add_savings_plan_section(between), Ok(()));
    assert_eq!(de.savings_plan(), &[new, s0, between, s1]);
}

#[test]
fn annual_section_end_is_adjusted() {
    let mut de = DepotEntry::default("n", InvestmentVariant::Etf);
    let s = section((2023, 3, 15), (2023, 5, 1), SavingsPlanInterval::Annually);
    assert_eq!(de.add_savings_plan_section(s), Ok(()));
    assert_eq!(de.savings_plan()[0].end.date(), FastDate::new_risky(2024, 3, 15).date());
    let t = section((2030, 3, 15), (2033, 1, 2), SavingsPlanInterval::Annually);
    assert_eq!(de.add_savings_plan_section(t), Ok(()));
    assert_eq!(de.savings_plan()[1].end.date(), FastDate::new_risky(2033, 3, 15).date());
}

#[test]
fn planned_transactions() {
    let monthly = section((2023, 1, 1), (2023, 12, 31), SavingsPlanInterval::Monthly);
    let annual = SavingsPlanSection {
        start: FastDate::new_risky(2024, 1, 1),
        end: FastDate::new_risky(2026, 1, 1),
        amount: 100.0f64.to_bits(),
        interval: SavingsPlanInterval::Annually,
    };
    let de = DepotEntry::new(InvestmentVariant::Etf, String::from("n"), vec![annual, monthly], BTreeMap::new());
    assert_eq!(de.get_planned_transactions(FastDate::new_risky(2023, 6, 1)), 25.0f64.to_bits());
    assert_eq!(de.get_planned_transactions(FastDate::new_risky(2024, 6, 1)), 0);
    assert_eq!(de.get_planned_transactions(FastDate::new_risky(2024, 12, 1)), 100.0f64.to_bits());
    assert_eq!(de.get_planned_transactions(FastDate::new_risky(2027, 12, 1)), 0);
}

// ---------- depot entry table ----------

#[test]
fn set_table_cell_writes_one_value() {
    let mut depot = Depot::new();
    depot.add_entry("a", entry_with_years("a", &[2023]));
    let hash = Depot::name_to_key("a").to_string();
    assert!(set_depot_entry_table_cell(&mut depot, &hash, InvestmentMonthFields::PricePerUnit, 12345, 2023, 3));
    assert!(set_depot_entry_table_cell(&mut depot, &hash, InvestmentMonthFields::Amount, 7, 2023, 3));
    assert!(set_depot_entry_table_cell(&mut depot, &hash, InvestmentMonthFields::AdditionalTransactions, 99, 2023, 12));
    let year = depot.get_entry_from_str("a").unwrap().history[&2023];
    assert_eq!(year.months[2], InvestmentMonth::new(3, 7, 12345, 0));
    assert_eq!(year.months[11], InvestmentMonth::new(12, 0, 0, 99));
    assert_eq!(year.months[0], InvestmentMonth::default(1));
}

#[test]
fn set_table_cell_refusals_change_nothing() {
    let mut depot = Depot::new();
    depot.add_entry("a", entry_with_years("a", &[2023]));
    let before = depot.clone();
    let hash = Depot::name_to_key("a").to_string();
    let other = Depot::name_to_key("b").to_string();
    assert!(!set_depot_entry_table_cell(&mut depot, "no number", InvestmentMonthFields::Amount, 1, 2023, 1));
    assert!(!set_depot_entry_table_cell(&mut depot, &other, InvestmentMonthFields::Amount, 1, 2023, 1));
    assert!(!set_depot_entry_table_cell(&mut depot, &hash, InvestmentMonthFields::Amount, 1, 2022, 1));
    assert_eq!(depot, before);
}

#[test]
fn previous_year_is_added_before_the_oldest() {
    let mut depot = Depot::new();
    depot.add_entry("a", entry_with_years("a", &[2023, 2024]));
    depot.add_entry("e", entry_with_years("e", &[]));
    let hash = Depot::name_to_key("a").to_string();
    assert!(add_depot_entrys_previous_year(&mut depot, &hash));
    let years: Vec<u16> = depot.get_entry_from_str("a").unwrap().history.keys().copied().collect();
    assert_eq!(years, vec![2022, 2023, 2024]);
    assert_eq!(depot.get_entry_from_str("a").unwrap().history[&2022], InvestmentYear::default(2022));
    assert!(!add_depot_entrys_previous_year(&mut depot, &Depot::name_to_key("e").to_string()));
    assert!(!add_depot_entrys_previous_year(&mut depot, "x"));
}

#[test]
fn add_and_delete_depot_entries() {
    let mut depot = Depot::new();
    assert!(!add_depot_entry(&mut depot, "", "Stock"));
    assert!(!add_depot_entry(&mut depot, "name", "Gold"));
    assert!(depot.entries.is_empty());
    assert!(add_depot_entry(&mut depot, "name", "crypto"));
    let e = depot.get_entry_from_str("name").unwrap();
    assert_eq!(e.variant, InvestmentVariant::Crypto);
    assert_eq!(e.history.len(), 1);
    let hash = Depot::name_to_key("name").to_string();
    assert!(!delete_depot_entry(&mut depot, "nope"));
    assert!(delete_depot_entry(&mut depot, &hash));
    assert!(depot.entries.is_empty());
    assert!(!delete_depot_entry(&mut depot, &hash));
}

#[test]
fn prepare_table_puts_in_the_current_year() {
    let mut depot = Depot::new();
    depot.add_entry("a", entry_with_years("a", &[2020]));
    let hash = Depot::name_to_key("a").to_string();
    assert_eq!(
        prepare_depot_entry_table_in_year(&mut depot, "z", 2024),
        Err(DepotEntryTableError::UnparsableHash)
    );
    assert_eq!(
        prepare_depot_entry_table_in_year(&mut depot, &Depot::name_to_key("b").to_string(), 2024),
        Err(DepotEntryTableError::NoSuchEntry)
    );
    assert_eq!(prepare_depot_entry_table_in_year(&mut depot, &hash, 2024), Ok(Depot::name_to_key("a")));
    let years: Vec<u16> = depot.get_entry_from_str("a").unwrap().history.keys().copied().collect();
    assert_eq!(years, vec![2020, 2024]);
    // the latest year is the current year already: nothing changes
    let before = depot.clone();
    assert!(prepare_depot_entry_table_in_year(&mut depot, &hash, 2024).is_ok());
    assert_eq!(depot, before);
}

// ---------- overview ----------

#[test]
fn comparison_remove_undoes_add() {
    let mut inv = Investing::default();
    inv.add_comparison(3);
    depot_overview_do_comparison_action(&mut inv, ComparisonAction::Add);
    assert_eq!(inv.comparisons, vec![3, 7]);
    depot_overview_do_comparison_action(&mut inv, ComparisonAction::Remove);
    assert_eq!(inv.comparisons, vec![3]);
    depot_overview_do_comparison_action(&mut inv, ComparisonAction::Remove);
    depot_overview_do_comparison_action(&mut inv, ComparisonAction::Remove);
    assert!(inv.comparisons.is_empty());
}

#[test]
fn comparison_values_are_parsed_as_unsigned_numbers() {
    let mut inv = Investing::default();
    inv.add_comparison(3);
    assert!(depot_overview_change_comparison(&mut inv, "0", "+9"));
    assert_eq!(inv.comparisons, vec![9]);
    assert!(depot_overview_change_comparison(&mut inv, "+0", "007"));
    assert_eq!(inv.comparisons, vec![7]);
    assert!(depot_overview_change_comparison(&mut inv, "0", "255"));
    assert_eq!(inv.comparisons, vec![255]);
    // too large for a u8, empty, a bare sign, a space, a sign only in front
    assert!(!depot_overview_change_comparison(&mut inv, "0", "256"));
    assert!(!depot_overview_change_comparison(&mut inv, "0", ""));
    assert!(!depot_overview_change_comparison(&mut inv, "0", "+"));
    assert!(!depot_overview_change_comparison(&mut inv, "0", " 5"));
    assert!(!depot_overview_change_comparison(&mut inv, "0", "5+"));
    assert!(!depot_overview_change_comparison(&mut inv, "18446744073709551616", "5"));
    assert_eq!(inv.comparisons, vec![255]);
    // an index past the end is parsed, but changes nothing
    assert!(depot_overview_change_comparison(&mut inv, "18446744073709551615", "5"));
    assert_eq!(inv.comparisons, vec![255]);
}

#[test]
fn change_comparison() {
    let mut inv = Investing::default();
    inv.add_comparison(3);
    inv.add_comparison(5);
    assert!(depot_overview_change_comparison(&mut inv, "1", "9"));
    assert_eq!(inv.comparisons, vec![3, 9]);
    // an id without a comparison: nothing changes
    assert!(depot_overview_change_comparison(&mut inv, "2", "9"));
    assert!(!depot_overview_change_comparison(&mut inv, "0", "300"));
    assert!(!depot_overview_change_comparison(&mut inv, "-1", "1"));
    assert_eq!(inv.comparisons, vec![3, 9]);
}

#[test]
fn alltime_labels_count_months() {
    let labels = alltime_labels(2023, 14);
    assert_eq!(labels.len(), 14);
    assert_eq!(labels[0], "2023-01");
    assert_eq!(labels[11], "2023-12");
    assert_eq!(labels[12], "2024-01");
    assert_eq!(labels[13], "2024-02");
    assert!(alltime_labels(2000, 0).is_empty());
}

// ---------- accounting ----------

#[test]
fn accounting_year_sums_and_overwrites() {
    let mut y = AccountingYear::default(2023);
    assert_eq!(y.insert_or_overwrite_month(AccountingMonth::new(2, 10000, 2550, String::new())), None);
    assert_eq!(y.insert_or_overwrite_month(AccountingMonth::new(5, 500, 1000, String::from("x"))), None);
    assert_eq!(y.get_sum_income(), 10500);
    assert_eq!(y.get_sum_expenses(), 3550);
    assert_eq!(y.get_difference(), 6950);
    let replaced = y.insert_or_overwrite_month(AccountingMonth::new(2, 1, 1, String::new()));
    assert_eq!(replaced, Some(AccountingMonth::new(2, 10000, 2550, String::new())));
    assert_eq!(y.get_sum_income(), 501);
    assert_eq!(AccountingMonth::new(1, 100, 350, String::new()).difference(), -250);
}

#[test]
fn accounting_add_or_get_year_is_idempotent() {
    let mut a = Accounting::default();
    a.add_or_get_year(2023).insert_or_overwrite_month(AccountingMonth::new(1, 5, 0, String::new()));
    let before = a.clone();
    let y = a.add_or_get_year(2023);
    assert_eq!(y.months[0].income(), 5);
    assert_eq!(a, before);
    assert_eq!(a.history.len(), 1);
}

#[test]
fn datafile_defaults() {
    let d = DataFile::default_no_write_on_drop();
    assert_eq!(d.version, FILE_VERSION);
    assert!(!d.write_on_drop);
    assert_eq!(d.accounting, Accounting::default());
    assert_eq!(d.investing, Investing::default());
    assert_eq!(d.accounting.goal, 1.0f64.to_bits());
}

// ---------- first version of the data file ----------

#[test]
fn yaml_add_or_get_year_keeps_years_ordered() {
    let mut f = YamlFile::default();
    assert_eq!(f.goal, 1.0f64.to_bits());
    for y in [2020, 2010, 2030, 2015, 2020] {
        f.add_or_get_year(y);
    }
    let nrs: Vec<u16> = f.years.iter().map(|y| y.year_nr).collect();
    assert_eq!(nrs, vec![2010, 2015, 2020, 2030]);
    f.add_or_get_year(2015).income = 3.5f64.to_bits();
    assert_eq!(f.years[1].income, 3.5f64.to_bits());
    assert_eq!(f.add_or_get_year(2015).income, 3.5f64.to_bits());
    assert_eq!(f.years.len(), 4);
    assert_eq!(f.years[0], Year::default(2010));
}

// ---------- clock ----------

#[test]
fn current_date_is_plausible() {
    let m = CurrentDate::current_month();
    assert!((1..=12).contains(&m));
    assert!(CurrentDate::current_year() >= 2020);
}

// ---------- csv, medians, monetary text ----------

#[test]
fn csv_contents_with_header() {
    let content = "Date;Amount\n01.02.2023;-12,50\n03.02.2023;100\n";
    let lines = finanzbuch::csv_reader::get_csv_contents_with_header(content).unwrap();
    assert_eq!(
        lines,
        vec![
            vec![String::from("Date"), String::from("Amount")],
            vec![String::from("01.02.2023"), String::from("-12,50")],
            vec![String::from("03.02.2023"), String::from("100")],
        ]
    );
    // rows of different lengths are an error of the csv reader
    assert_eq!(finanzbuch::csv_reader::get_csv_contents_with_header("a;b\n1;2;3\n"), None);
    assert_eq!(finanzbuch::csv_reader::get_csv_contents_with_header(""), Some(vec![vec![]]));
}

#[test]
fn medians_of_months() {
    let mut y = AccountingYear::default(2023);
    assert_eq!(y.get_median_income(), Err(()));
    y.insert_or_overwrite_month(AccountingMonth::new(1, 300, 100, String::new()));
    y.insert_or_overwrite_month(AccountingMonth::new(2, 100, 400, String::new()));
    y.insert_or_overwrite_month(AccountingMonth::new(3, 200, 0, String::new()));
    // incomes 300, 100, 200 (the zeros of the other months do not count)
    assert_eq!(y.get_median_income(), Ok((200, 200)));
    // expenses 100, 400
    assert_eq!(y.get_median_expenses(), Ok((100, 400)));
    // differences 200, -300, 200
    assert_eq!(y.get_median_difference(), Ok((200, 200)));
}

#[test]
fn median_difference_counts_negative_months() {
    let mut y = AccountingYear::default(2023);
    assert_eq!(y.get_median_difference(), Err(()));
    y.insert_or_overwrite_month(AccountingMonth::new(1, 100, 300, String::new()));
    assert_eq!(y.get_median_difference(), Ok((-200, -200)));
    y.insert_or_overwrite_month(AccountingMonth::new(2, 500, 100, String::new()));
    // differences -200 and 400: the median is their mean
    assert_eq!(y.get_median_difference(), Ok((-200, 400)));
    // a month whose income equals its expenses holds no difference
    y.insert_or_overwrite_month(AccountingMonth::new(3, 50, 50, String::new()));
    assert_eq!(y.get_median_difference(), Ok((-200, 400)));
}

#[test]
fn monetary_chars_drop_signs() {
    assert_eq!(SanitizeInput::monetary_chars("-1.234,56 €"), "1.234.56");
    assert_eq!(SanitizeInput::monetary_chars("+7"), "7");
}

#[test]
fn all_variants() {
    let all = InvestmentVariant::into_iter();
    assert_eq!(all.len(), 7);
    assert_eq!(all[0], InvestmentVariant::Stock);
    assert_eq!(all[6], InvestmentVariant::Crypto);
}

#[test]
fn ldd_line_names_the_library() {
    let (with_version, name) = finanzbuch::flatpak::ldd_library(
        "\tlibbrotlicommon.so.1 => /lib/x86_64-linux-gnu/libbrotlicommon.so.1 (0x00007fc710790000)",
    );
    assert_eq!(with_version, "libbrotlicommon.so.1");
    assert_eq!(name, "libbrotlicommon");
    let (with_version, name) = finanzbuch::flatpak::ldd_library("  /lib64/ld-linux-x86-64.so.2 (0x00007f)");
    assert_eq!(with_version, "/lib64/ld-linux-x86-64.so.2 (0x00007f)");
    assert_eq!(name, "/lib64/ld-linux-x86-64");
    assert_eq!(finanzbuch::flatpak::ldd_library(""), (String::new(), String::new()));
}

#[test]
fn yaml_years_are_ordered_stably() {
    let mut second_2020 = Year::default(2020);
    second_2020.income = 1.0f64.to_bits();
    let mut f = YamlFile {
        version: 1,
        goal: 0,
        years: vec![Year::default(2022), Year::default(2020), Year::default(2021), second_2020],
    };
    f.order_years();
    let nrs: Vec<u16> = f.years.iter().map(|y| y.year_nr).collect();
    assert_eq!(nrs, vec![2020, 2020, 2021, 2022]);
    assert_eq!(f.years[0], Year::default(2020));
    assert_eq!(f.years[1], second_2020);
}

#[test]
fn plain_date_layout_and_setters() {
    let mut d = PlainDate::new(2023, 7, 9).unwrap();
    assert_eq!(d.raw(), (2023 << 16) | (7 << 8) | 9);
    assert_eq!(d.date(), (2023, 7, 9));
    assert!(PlainDate::new(2023, 13, 1).is_err());
    assert!(PlainDate::new(2023, 1, 32).is_err());
    assert!(PlainDate::new(2023, 0, 1).is_err());
    assert!(d.set_month(13).is_err());
    assert!(d.set_day(0).is_err());
    assert_eq!(d.date(), (2023, 7, 9));
    assert!(d.set_month(12).is_ok());
    assert!(d.set_day(31).is_ok());
    d.set_year(1999);
    assert_eq!(d.date(), (1999, 12, 31));
    assert!(PlainDate::new(1999, 12, 31).unwrap() < PlainDate::new(2000, 1, 1).unwrap());
    assert!(PlainDate::new(2000, 1, 2).unwrap() > PlainDate::new(2000, 1, 1).unwrap());
}

fn ym_section(start: (u16, u8), end: (u16, u8)) -> finanzbuch::investing::depot_element::SavingsPlanSection {
    finanzbuch::investing::depot_element::SavingsPlanSection {
        start_year: start.0,
        start_month: start.1,
        end_year: end.0,
        end_month: end.1,
        amount: 10.0f64.to_bits(),
        interval: SavingsPlanInterval::Monthly,
    }
}

#[test]
fn depot_element_sections_in_one_year() {
    // from January to June 10 per month, from July on 20 per month
    let first_half = ym_section((2023, 1), (2023, 6));
    let mut second_half = ym_section((2023, 7), (2023, 12));
    second_half.amount = 20.0f64.to_bits();
    let mut e = DepotElement::new(InvestmentVariant::Etf, vec![first_half], HashMap::new());
    assert_eq!(e.add_savings_plan_section(&second_half), Ok(()));
    assert_eq!(e.savings_plan(), &[first_half, second_half]);
    // a section that ends in the month before the first starts
    let year_before = ym_section((2022, 1), (2022, 12));
    assert_eq!(e.add_savings_plan_section(&year_before), Ok(()));
    assert_eq!(e.savings_plan(), &[year_before, first_half, second_half]);
    // sharing a single month is a clash
    assert_eq!(e.add_savings_plan_section(&ym_section((2023, 6), (2023, 7))), Err(Some(first_half)));
    assert_eq!(e.add_savings_plan_section(&ym_section((2023, 12), (2024, 2))), Err(Some(second_half)));
}

#[test]
fn depot_element_savings_plan() {
    let existing = ym_section((2023, 1), (2023, 12));
    let mut e = DepotElement::new(InvestmentVariant::Etf, vec![existing], HashMap::new());
    // the start is not before the end
    assert_eq!(e.add_savings_plan_section(&ym_section((2024, 5), (2024, 5))), Err(None));
    assert_eq!(e.add_savings_plan_section(&ym_section((2025, 1), (2024, 5))), Err(None));
    // starts in the year and month the existing one ends
    assert_eq!(e.add_savings_plan_section(&ym_section((2023, 12), (2024, 3))), Err(Some(existing)));
    assert_eq!(e.savings_plan(), &[existing]);
    let after = ym_section((2025, 1), (2025, 6));
    assert_eq!(e.add_savings_plan_section(&after), Ok(()));
    assert_eq!(e.savings_plan(), &[existing, after]);
    // ends before both: entered once, in front of them
    let before = ym_section((2020, 1), (2021, 5));
    assert_eq!(e.add_savings_plan_section(&before), Ok(()));
    assert_eq!(e.savings_plan(), &[before, existing, after]);

    let mut empty = DepotElement::default(InvestmentVariant::Bond);
    assert_eq!(empty.add_savings_plan_section(&after), Ok(()));
    assert_eq!(empty.savings_plan(), &[after]);
    assert_eq!(DepotElement::default_months(), InvestmentYear::default_months());
}

#[test]
fn dates_from_stored_values() {
    let d = FastDate::new(2023, 7, 9).unwrap();
    assert_eq!(FastDate::from_raw(d.raw()), d);
    assert_eq!(FastDate::from_raw(0x1234_5678).raw(), 0x1234_5678);
    let p = PlainDate::new(2023, 7, 9).unwrap();
    assert_eq!(PlainDate::from_raw(p.raw()), p);
}

#[test]
fn fast_date_constructors_agree() {
    assert_eq!(FastDate::default(), FastDate::new(2000, 1, 1).unwrap());
    assert_eq!(FastDate::new_risky(2024, 2, 29), FastDate::new(2024, 2, 29).unwrap());
    assert_eq!(FastDate::new_max(), FastDate::new(65535, 12, 31).unwrap());
}

#[test]
fn entries_by_key() {
    let mut depot = Depot::new();
    let key = Depot::name_to_key("a");
    depot.add_entry_at(key, entry_with_years("a", &[2020]));
    assert_eq!(depot.get_entry(key), Some(&entry_with_years("a", &[2020])));
    assert_eq!(depot.get_entry(key.wrapping_add(1)), None);
    // the same name reaches the same entry
    assert_eq!(depot.get_entry_from_str("a"), depot.get_entry(key));
    depot.get_entry_mut(key).unwrap().history.clear();
    assert!(depot.get_entry(key).unwrap().history.is_empty());
    assert!(depot.get_entry_mut(key.wrapping_add(1)).is_none());
}
