use finanzbuch::structs::Month;
use finanzbuch::structs::YamlFile;
use finanzbuch::structs::Year;
use finanzbuch::SanitizeInput;

#[test]
fn tests_main_month_compare() {
    const MONTH: u8 = 1;
    const YEAR: u16 = 2000;

    let mut ymlfile = YamlFile {
        version: 1,
        goal: 0.0f64.to_bits(),
        years: vec![Year {
            year_nr: YEAR,
            income: 0.0f64.to_bits(),
            expenses: 0.0f64.to_bits(),
            months: Month::default_months(),
        }],
    };

    match ymlfile.years.iter().position(|y| y.year_nr == YEAR) {
        Some(index) => match ymlfile.years.get_mut(index) {
            Some(ymlyear) => {
                let month = &mut ymlyear.months[MONTH as usize - 1];

                // this comparison has to compare the values, not only the types
                assert!(*month == Month::default(month.month_nr));
                assert_ne!(*month, Month::default(month.month_nr + 1));
            }
            None => (),
        },
        None => (),
    }
}

#[test]
fn tests_main_input_number_filter() {
    let s = SanitizeInput::number_chars(" asdasd 339,59 €	");
    assert_eq!(s, "339.59");
}
