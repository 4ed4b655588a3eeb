use finanzbuch::accounting::accounting_month::AccountingMonth;
use finanzbuch::accounting::accounting_year::AccountingYear;
use finanzbuch::accounting::recurrence::Recurrence;
use finanzbuch::accounting::recurrence::RecurringInOut;
use finanzbuch::accounting::Accounting;
use finanzbuch::datafile::FILE_VERSION;
use finanzbuch::fast_date::FastDate;
use finanzbuch::investing::depot::Depot;
use finanzbuch::investing::inv_variant::InvestmentVariant;
use finanzbuch::investing::inv_year::InvestmentYear;
use finanzbuch::investing::savings_plan_section::SavingsPlanSection;
use finanzbuch::investing::Investing;
use finanzbuch::investing::SavingsPlanInterval;
use finanzbuch::DataFile;
use finanzbuch::DepotEntry;
use std::collections::BTreeMap;

fn prepare_tests() -> DepotEntry {
    let savings_plan = vec![SavingsPlanSection {
        start: FastDate::new_risky(2023, 1, 1),
        end: FastDate::new_risky(2023, 12, 31),
        amount: 10.0f64.to_bits(),
        interval: SavingsPlanInterval::Monthly,
    }];
    DepotEntry::new(InvestmentVariant::Etf, String::from("name"), savings_plan, BTreeMap::new())
}

#[test]
fn add_savings_plan_section_same() {
    let mut de = prepare_tests();

    let result = de.add_savings_plan_section(SavingsPlanSection {
        start: FastDate::new_risky(2023, 1, 1),
        end: FastDate::new_risky(2023, 12, 31),
        amount: 10.0f64.to_bits(),
        interval: SavingsPlanInterval::Monthly,
    });

    assert_eq!(result.is_err(), true);
}

#[test]
fn add_savings_plan_section_overlap_start() {
    let mut de = prepare_tests();

    let result = de.add_savings_plan_section(SavingsPlanSection {
        start: FastDate::new_risky(2022, 6, 1),
        end: FastDate::new_risky(2023, 1, 1),
        amount: 10.0f64.to_bits(),
        interval: SavingsPlanInterval::Monthly,
    });

    assert_eq!(result.is_err(), true);
}

#[test]
fn add_savings_plan_section_overlap_end() {
    let mut de = prepare_tests();

    let result = de.add_savings_plan_section(SavingsPlanSection {
        start: FastDate::new_risky(2023, 6, 1),
        end: FastDate::new_risky(2023, 12, 31),
        amount: 10.0f64.to_bits(),
        interval: SavingsPlanInterval::Monthly,
    });

    assert_eq!(result.is_err(), true);
}

#[test]
fn add_savings_plan_section_overlap_middle() {
    let mut de = prepare_tests();

    let result = de.add_savings_plan_section(SavingsPlanSection {
        start: FastDate::new_risky(2023, 2, 2),
        end: FastDate::new_risky(2023, 11, 11),
        amount: 10.0f64.to_bits(),
        interval: SavingsPlanInterval::Monthly,
    });

    assert_eq!(result.is_err(), true);
}

#[test]
fn add_savings_plan_section_ends_before() {
    let mut de = prepare_tests();

    let result = de.add_savings_plan_section(SavingsPlanSection {
        start: FastDate::new_risky(2022, 6, 1),
        end: FastDate::new_risky(2022, 12, 31),
        amount: 10.0f64.to_bits(),
        interval: SavingsPlanInterval::Monthly,
    });

    assert_eq!(result.is_ok(), true);
}

#[test]
fn add_savings_plan_section_starts_after() {
    let mut de = prepare_tests();

    let result = de.add_savings_plan_section(SavingsPlanSection {
        start: FastDate::new_risky(2024, 1, 1),
        end: FastDate::new_risky(2024, 12, 31),
        amount: 10.0f64.to_bits(),
        interval: SavingsPlanInterval::Monthly,
    });

    assert_eq!(result.is_ok(), true);
}

#[test]
fn hash_test() {
    // create entry by name, create hash of name, get entry by hash and by name, should all be the same
    const NAME: &str = "Depot Test name 123 &#+.-";
    let depot_entry = DepotEntry::default(NAME, InvestmentVariant::Etf);
    let hash = Depot::name_to_key(NAME);

    let mut datafile: DataFile = DataFile::default_no_write_on_drop();
    datafile.investing.depot.add_entry(NAME, depot_entry.clone());

    assert!(datafile.investing.depot.entries.contains_key(&hash));

    let entry_from_name: Option<&DepotEntry> = datafile.investing.depot.get_entry_from_str(NAME);
    assert_ne!(entry_from_name, None);
    assert_eq!(NAME, entry_from_name.unwrap().name());
    assert_eq!(entry_from_name.unwrap(), &depot_entry);

    let entry_from_hash: Option<&DepotEntry> = datafile.investing.depot.entries.get(&hash);
    assert_ne!(entry_from_hash, None);
    assert_eq!(NAME, entry_from_hash.unwrap().name());
    assert_eq!(entry_from_hash.unwrap(), &depot_entry);
}

#[test]
fn lib_tests_month_compare() {
    const MONTH: u8 = 1;
    const YEAR: u16 = 2000;

    let mut datafile = DataFile {
        version: FILE_VERSION,
        accounting: Accounting {
            history: BTreeMap::from([(YEAR, AccountingYear::default(YEAR))]),
            goal: 1.0f64.to_bits(),
            recurring_income: vec![RecurringInOut {
                name: String::from("name for recurring income"),
                quantity: 5.0f64.to_bits(),
                recurrence: Recurrence::Week,
                interval: 1,
                frequency: 5,
            }],
            recurring_expenses: vec![RecurringInOut {
                name: String::from("name for recurring income"),
                quantity: 15.0f64.to_bits(),
                recurrence: Recurrence::Week,
                interval: 3,
                frequency: 1,
            }],
        },
        investing: Investing::default(),
        write_on_drop: false,
    };

    let year = match datafile.accounting.history.get_mut(&YEAR) {
        Some(v) => v,
        None => panic!("Year that was just created, could not be found in HashMap"),
    };

    let month = &mut year.months[MONTH as usize - 1];

    // this comparison has to compare the values, not only the types
    assert!(*month == AccountingMonth::default(month.month_nr()));
    assert_ne!(*month, AccountingMonth::default(month.month_nr() + 1));
}

#[test]
fn test_get_oldest_year_in_depot_with_entries_and_history() {
    let mut datafile = DataFile::default_no_write_on_drop();

    for i in 1..4 {
        let mut history = BTreeMap::new();
        for year in (2000 + i)..(2004 + i) {
            history.insert(year, InvestmentYear::default(year));
        }

        let name = format!("Depot {}", i);
        datafile.investing.depot.entries.insert(
            Depot::name_to_key(name.as_str()),
            DepotEntry::new(InvestmentVariant::Stock, name, vec![], history),
        );
    }

    assert_eq!(datafile.investing.depot.get_oldest_year(), Some(2001));
}

#[test]
fn test_get_oldest_year_in_depot_with_entries_no_history() {
    let mut datafile = DataFile::default_no_write_on_drop();

    for i in 1..4 {
        let name = format!("Depot {}", i);
        datafile.investing.depot.entries.insert(
            Depot::name_to_key(name.as_str()),
            DepotEntry::new(InvestmentVariant::Stock, name, vec![], BTreeMap::new()),
        );
    }

    assert_eq!(datafile.investing.depot.get_oldest_year(), None);
}

#[test]
fn test_get_oldest_year_in_depot_no_entries() {
    let datafile = DataFile::default_no_write_on_drop();

    assert_eq!(datafile.investing.depot.get_oldest_year(), None);
}
