use chrono::DateTime;
use chrono::Datelike;
use chrono::Utc;
use std::time::SystemTime;
use vstd::prelude::*;

verus! {

/// The year of the system clock's current time in UTC: `std::time::SystemTime::now()`
/// turned into a `chrono::DateTime<Utc>`, then `chrono::Datelike::year`.
/// Nothing is claimed of the result, which depends on the clock.
#[verifier::external_body]
fn clock_year() -> i32 {
    let now: DateTime<Utc> = SystemTime::now().into();
    now.year()
}

/// The month of the system clock's current time in UTC: `std::time::SystemTime::now()`
/// turned into a `chrono::DateTime<Utc>`, then `chrono::Datelike::month`, which chrono
/// documents to start at 1 and to range from 1 to 12. Which month it is depends on the clock.
#[verifier::external_body]
fn clock_month() -> (m: u32)
    ensures
        1 <= m <= 12,
{
    let now: DateTime<Utc> = SystemTime::now().into();
    now.month()
}

/// The current date, read from the system clock (in UTC).
pub struct CurrentDate;

impl CurrentDate {
    /// The current year, cut to 16 bits.
    pub fn current_year() -> u16 {
        #[verifier::truncate]
        (clock_year() as u16)
    }

    /// The current month, 1 to 12.
    pub fn current_month() -> (m: u8)
        ensures
            1 <= m <= 12,
    {
        clock_month() as u8
    }
}

} // verus!
