use finanzbuch::accounting::accounting_month::AccountingMonth;
use finanzbuch::accounting::accounting_year::AccountingYear;
use finanzbuch::accounting::recurrence::Recurrence;
use finanzbuch::accounting::recurrence::RecurringInOut;
use finanzbuch::accounting::Accounting;
use finanzbuch::investing::Investing;
use finanzbuch::DataFile;
use finanzbuch::FastDate;
use finanzbuch::SanitizeInput;
use std::collections::BTreeMap;

#[test]
fn tests_lib_month_compare() {
    const MONTH: u8 = 1;
    const YEAR: u16 = 2000;

    let mut datafile = DataFile {
        version: 2,
        accounting: Accounting {
            history: BTreeMap::from([(YEAR, AccountingYear::default(YEAR))]),
            goal: 1.0f64.to_bits(),
            recurring_income: vec![RecurringInOut {
                name: String::from("name for recurring income"),
                quantity: 5.0f64.to_bits(),
                recurrence: Recurrence::Week,
                interval: 1,
                frequency: 5,
            }],
            recurring_expenses: vec![RecurringInOut {
                name: String::from("name for recurring income"),
                quantity: 15.0f64.to_bits(),
                recurrence: Recurrence::Week,
                interval: 3,
                frequency: 1,
            }],
        },
        investing: Investing::default(),
        write_on_drop: false,
    };

    let year = match datafile.accounting.history.get_mut(&YEAR) {
        Some(v) => v,
        None => panic!("Year that was just created, could not be found in HashMap"),
    };

    let month = &mut year.months[MONTH as usize - 1];

    // this comparison has to compare the values, not only the types
    assert!(*month == AccountingMonth::default(month.month_nr()));
    assert_ne!(*month, AccountingMonth::default(month.month_nr() + 1));
}

#[test]
fn tests_lib_input_number_filter() {
    let s = SanitizeInput::number_chars(" asdasd 339,59 €	");
    assert_eq!(s, "339.59");
}

/// - 9.7.2023 is 190th day of the year:
/// - 31 + 28 + 31 + 30 + 31 + 30 + 9
/// - ceil(190 / 7) = 28
#[test]
fn tests_lib_new() {
    assert_eq!(FastDate::new(2023, 7, 9).unwrap().date(), (2023, 7, 9, 28))
}

#[test]
fn tests_lib_new_invalid_month() {
    assert!(FastDate::new(2023, 13, 23).is_err())
}

#[test]
fn tests_lib_new_invalid_day() {
    assert!(FastDate::new(2023, 11, 32).is_err())
}

#[test]
fn tests_lib_max_values() {
    assert_eq!(FastDate::new(2023, 12, 31).unwrap().date(), (2023, 12, 31, 53))
}

#[test]
fn tests_lib_min_values() {
    assert_eq!(FastDate::new(2023, 1, 1).unwrap().date(), (2023, 1, 1, 1))
}

#[test]
fn tests_lib_set_year() {
    let mut date = FastDate::new(2023, 11, 23).unwrap();
    date.set_year(2024);
    assert_eq!(date.year(), 2024);
}

#[test]
fn tests_lib_set_month() {
    let mut date = FastDate::new(2023, 11, 23).unwrap();
    assert!(date.set_month(13).is_err());
    assert!(date.set_month(0).is_err());
    assert!(date.set_month(12).is_ok());
}

#[test]
fn tests_lib_set_day() {
    let mut date = FastDate::new(2023, 11, 23).unwrap();
    assert!(date.set_day(32).is_err());
    assert!(date.set_day(0).is_err());
    assert!(date.set_day(31).is_ok());
}

#[test]
fn tests_lib_comparison_smaller_larger() {
    let past = FastDate::new(2000, 1, 1).unwrap();
    let future = FastDate::new(2000, 1, 2).unwrap();
    assert!(past < future);
    assert!(future > past);
}

#[test]
fn tests_lib_comparison_eq() {
    let now = FastDate::new(2000, 11, 23).unwrap();
    assert!(now == now);
}

#[test]
fn tests_lib_comparison_smaller_eq() {
    let past = FastDate::new(2000, 1, 1).unwrap();
    let future = FastDate::new(2000, 1, 2).unwrap();
    assert!(past < future);
    assert!(past <= past);
}

#[test]
fn tests_lib_bit_mask_negate() {
    assert_eq!(0b0000_0000 as u8, !0b1111_1111 as u8);
    assert_ne!(0b1111_1111, !0b0000_0000);
    assert_ne!(0b1111 as u8, !0b0000 as u8);
}
