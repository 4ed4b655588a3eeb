use vstd::prelude::*;

verus! {

/// Bits 16..32 hold the year.
pub const MASK_YEAR: u32 = 0xFFFF_0000;

/// Bits 12..16 hold the month.
pub const MASK_MONTH: u32 = 0x0000_F000;

/// Bits 6..12 hold the day.
pub const MASK_DAY: u32 = 0x0000_0FC0;

/// Bits 0..6 hold the week.
pub const MASK_WEEK: u32 = 0x0000_003F;

/// Number of days of a (non leap) year that lie before the first day of `month`.
/// Month `0` is treated like January.
pub open spec fn days_before_month(month: int) -> int {
    if month <= 1 {
        0
    } else if month == 2 {
        31
    } else if month == 3 {
        59
    } else if month == 4 {
        90
    } else if month == 5 {
        120
    } else if month == 6 {
        151
    } else if month == 7 {
        181
    } else if month == 8 {
        212
    } else if month == 9 {
        243
    } else if month == 10 {
        273
    } else if month == 11 {
        304
    } else {
        334
    }
}

/// The week of the year a day falls into: `ceil(day_of_year / 7)`,
/// where every year is treated as if it started on the first day of a week.
pub open spec fn week_of(month: int, day: int) -> int {
    (days_before_month(month) + day + 6) / 7
}

/// The packed layout: year, month, day and week from the most to the least significant bits.
pub open spec fn pack(year: int, month: int, day: int, week: int) -> int {
    year * 65536 + month * 4096 + day * 64 + week
}

/// A calendar date packed into one `u32`:
/// - `16` bit year (bits 16..32)
/// - `4` bit month (bits 12..16)
/// - `6` bit day (bits 6..12)
/// - `6` bit week (bits 0..6)
///     - every year is treated as if its first day were also the first day of its first week
///     - since `366 / 7 > 52`, the week can be 53
/// - all values start at 1
///
/// The highest possible value is the 31st of December 65535 (week 53).
/// Comparing two dates compares the packed values.
#[derive(Debug, Clone, Copy, PartialEq, Eq, Structural, PartialOrd, Ord, Hash)]
pub struct FastDate(u32);

impl View for FastDate {
    type V = u32;

    closed spec fn view(&self) -> u32 {
        self.0
    }
}

impl FastDate {
    /// The year stored in the packed value.
    pub open spec fn spec_year(self) -> int {
        self@ as int / 65536
    }

    /// The month stored in the packed value.
    pub open spec fn spec_month(self) -> int {
        (self@ as int / 4096) % 16
    }

    /// The day stored in the packed value.
    pub open spec fn spec_day(self) -> int {
        (self@ as int / 64) % 64
    }

    /// The week stored in the packed value.
    pub open spec fn spec_week(self) -> int {
        self@ as int % 64
    }

    /// The date that `new_risky(year, month, day)` builds.
    pub closed spec fn spec_from(year: int, month: int, day: int) -> FastDate {
        FastDate(pack(year, month, day, week_of(month, day)) as u32)
    }

    /// Month and day are in range and the week belongs to them.
    pub open spec fn is_valid(self) -> bool {
        &&& 1 <= self.spec_month() <= 12
        &&& 1 <= self.spec_day() <= 31
        &&& self.spec_week() == week_of(self.spec_month(), self.spec_day())
    }

    /// The date holds exactly these four values.
    pub open spec fn holds(self, year: int, month: int, day: int, week: int) -> bool {
        &&& self.spec_year() == year
        &&& self.spec_month() == month
        &&& self.spec_day() == day
        &&& self.spec_week() == week
    }

    /// January 1st 2000 (week 1)
    pub fn default() -> (d: Self)
        ensures
            d.holds(2000, 1, 1, 1),
            d.is_valid(),
            d == Self::spec_from(2000, 1, 1),
    {
        let d = Self::new_risky(2000, 1, 1);
        d
    }

    /// Same as `new`, for values that are known to be in range.
    pub fn new_risky(year: u16, month: u8, day: u8) -> (d: Self)
        requires
            1 <= month <= 12,
            1 <= day <= 31,
        ensures
            d.holds(year as int, month as int, day as int, week_of(month as int, day as int)),
            d.is_valid(),
            d@ == pack(year as int, month as int, day as int, week_of(month as int, day as int)),
            d == Self::spec_from(year as int, month as int, day as int),
    {
        let week = Self::_calc_week(month, day);
        Self::from_parts(year, month, day, week)
    }

    /// Returns `Err` if
    /// - month > 12 or 0
    /// - day > 31 or 0
    pub fn new(year: u16, month: u8, day: u8) -> (r: Result<Self, ()>)
        ensures
            r is Ok <==> (1 <= month <= 12 && 1 <= day <= 31),
            r matches Ok(d) ==> d.holds(
                year as int,
                month as int,
                day as int,
                week_of(month as int, day as int),
            ) && d.is_valid() && d == Self::spec_from(year as int, month as int, day as int),
    {
        if day < 1 || day > 31 || month < 1 || month > 12 {
            return Err(());
        }
        Ok(Self::new_risky(year, month, day))
    }

    /// The maximum value that is possible: 31st of December 65535 (week 53)
    pub fn new_max() -> (d: Self)
        ensures
            d.holds(65535, 12, 31, 53),
            d.is_valid(),
            d == Self::spec_from(65535, 12, 31),
    {
        Self::new_risky(65535, 12, 31)
    }

    /// (Year, Month, Day, Week)
    pub fn date(&self) -> (r: (u16, u8, u8, u8))
        ensures
            r.0 == self.spec_year(),
            r.1 == self.spec_month(),
            r.2 == self.spec_day(),
            r.3 == self.spec_week(),
    {
        (self.year(), self.month(), self.day(), self.week())
    }

    pub fn year(&self) -> (y: u16)
        ensures
            y == self.spec_year(),
    {
        let x = self.0;
        assert((x >> 16u32) as u16 == x / 65536) by (bit_vector);
        (x >> 16u32) as u16
    }

    pub fn month(&self) -> (m: u8)
        ensures
            m == self.spec_month(),
    {
        let x = self.0;
        assert(((x & 0x0000_F000u32) >> 12u32) as u8 == (x / 4096) % 16) by (bit_vector);
        ((x & MASK_MONTH) >> 12u32) as u8
    }

    pub fn day(&self) -> (d: u8)
        ensures
            d == self.spec_day(),
    {
        let x = self.0;
        assert(((x & 0x0000_0FC0u32) >> 6u32) as u8 == (x / 64) % 64) by (bit_vector);
        ((x & MASK_DAY) >> 6u32) as u8
    }

    pub fn week(&self) -> (w: u8)
        ensures
            w == self.spec_week(),
    {
        let x = self.0;
        assert((x & 0x0000_003Fu32) as u8 == x % 64) by (bit_vector);
        (x & MASK_WEEK) as u8
    }

    /// The date whose packed value is `raw`, as it was stored.
    pub fn from_raw(raw: u32) -> (d: Self)
        ensures
            d@ == raw,
    {
        Self(raw)
    }

    /// The packed value.
    pub fn raw(&self) -> (r: u32)
        ensures
            r == self@,
    {
        self.0
    }

    /// Replaces the year, keeps month, day and week.
    pub fn set_year(&mut self, year: u16)
        ensures
            final(self).holds(
                year as int,
                old(self).spec_month(),
                old(self).spec_day(),
                old(self).spec_week(),
            ),
    {
        let x = self.0;
        let n = (x & !MASK_YEAR) | (year as u32) << 16u32;
        assert({
            let n = (x & !0xFFFF_0000u32) | (year as u32) << 16u32;
            &&& n / 65536 == year as u32
            &&& (n / 4096) % 16 == (x / 4096) % 16
            &&& (n / 64) % 64 == (x / 64) % 64
            &&& n % 64 == x % 64
        }) by (bit_vector);
        self.0 = n;
    }

    /// Expects month to be `>= 1 && <= 12`, returns `Err` (and changes nothing) if thats not the case.
    /// The week is recalculated for the new month.
    pub fn set_month(&mut self, month: u8) -> (r: Result<(), ()>)
        ensures
            r is Ok <==> 1 <= month <= 12,
            r is Err ==> *final(self) == *old(self),
            r is Ok ==> final(self).holds(
                old(self).spec_year(),
                month as int,
                old(self).spec_day(),
                week_of(month as int, old(self).spec_day()),
            ),
    {
        if month > 12 || month == 0 {
            return Err(());
        }
        let x = self.0;
        assert({
            let n = (x & !0x0000_F000u32) | (month as u32) << 12u32;
            &&& n / 65536 == x / 65536
            &&& (n / 4096) % 16 == month as u32
            &&& (n / 64) % 64 == (x / 64) % 64
            &&& n % 64 == x % 64
        }) by (bit_vector)
            requires
                month <= 12,
        ;
        self.0 = (x & !MASK_MONTH) | (month as u32) << 12u32;
        self._set_week();
        Ok(())
    }

    /// Expects day to be `>= 1 && <= 31`, returns `Err` (and changes nothing) if thats not the case.
    /// The week is recalculated for the new day.
    pub fn set_day(&mut self, day: u8) -> (r: Result<(), ()>)
        requires
            old(self).spec_month() <= 12,
        ensures
            r is Ok <==> 1 <= day <= 31,
            r is Err ==> *final(self) == *old(self),
            r is Ok ==> final(self).holds(
                old(self).spec_year(),
                old(self).spec_month(),
                day as int,
                week_of(old(self).spec_month(), day as int),
            ),
    {
        if day > 31 || day == 0 {
            return Err(());
        }
        let x = self.0;
        assert({
            let n = (x & !0x0000_0FC0u32) | (day as u32) << 6u32;
            &&& n / 65536 == x / 65536
            &&& (n / 4096) % 16 == (x / 4096) % 16
            &&& (n / 64) % 64 == day as u32
            &&& n % 64 == x % 64
        }) by (bit_vector)
            requires
                day <= 31,
        ;
        self.0 = (x & !MASK_DAY) | (day as u32) << 6u32;
        self._set_week();
        Ok(())
    }

    /// Recalculates the week from the month and day that are stored.
    fn _set_week(&mut self)
        requires
            old(self).spec_month() <= 12,
        ensures
            final(self).holds(
                old(self).spec_year(),
                old(self).spec_month(),
                old(self).spec_day(),
                week_of(old(self).spec_month(), old(self).spec_day()),
            ),
    {
        let week = Self::_calc_week(self.month(), self.day());
        assert(self.spec_day() < 64);
        let x = self.0;
        assert({
            let n = (x & !0x0000_003Fu32) | week;
            &&& n / 65536 == x / 65536
            &&& (n / 4096) % 16 == (x / 4096) % 16
            &&& (n / 64) % 64 == (x / 64) % 64
            &&& n % 64 == week
        }) by (bit_vector)
            requires
                week < 64,
        ;
        self.0 = (x & !MASK_WEEK) | week;
    }

    /// `ceil(day_of_year / 7)`
    fn _calc_week(month: u8, day: u8) -> (w: u32)
        requires
            month <= 12,
            day < 64,
        ensures
            w == week_of(month as int, day as int),
            w < 64,
    {
        let day_in_year: u16 = Self::_days_until_month_start(month) + day as u16;
        ((day_in_year + 6) / 7) as u32
    }

    fn _days_until_month_start(month: u8) -> (n: u16)
        requires
            month <= 12,
        ensures
            n == days_before_month(month as int),
            n <= 334,
    {
        match month {
            0 | 1 => 0,
            2 => 31,
            3 => 59,
            4 => 90,
            5 => 120,
            6 => 151,
            7 => 181,
            8 => 212,
            9 => 243,
            10 => 273,
            11 => 304,
            _ => 334,
        }
    }

    /// Builds the packed value from parts that fit their fields.
    fn from_parts(year: u16, month: u8, day: u8, week: u32) -> (d: Self)
        requires
            month < 16,
            day < 64,
            week < 64,
        ensures
            d@ == pack(year as int, month as int, day as int, week as int),
            d.holds(year as int, month as int, day as int, week as int),
    {
        let v: u32 = (year as u32) << 16u32 | (month as u32) << 12u32 | (day as u32) << 6u32 | week;
        assert((year as u32) << 16u32 | (month as u32) << 12u32 | (day as u32) << 6u32 | week == (
        year as u32) * 65536 + (month as u32) * 4096 + (day as u32) * 64 + week) by (bit_vector)
            requires
                month < 16,
                day < 64,
                week < 64,
        ;
        assert({
            let n = (year as u32) * 65536 + (month as u32) * 4096 + (day as u32) * 64 + week;
            &&& n / 65536 == year as u32
            &&& (n / 4096) % 16 == month as u32
            &&& (n / 64) % 64 == day as u32
            &&& n % 64 == week
        }) by (bit_vector)
            requires
                month < 16,
                day < 64,
                week < 64,
        ;
        FastDate(v)
    }
}

/// `FastDate::new` and `FastDate::new_risky` build the same date, `FastDate::spec_from`, out
/// of a month from 1 to 12 and a day from 1 to 31 (the inputs on which `new` succeeds and which
/// `new_risky` accepts); two such dates are the same exactly when they were built out of the
/// same year, month and day.
pub proof fn law_dates_are_built_from_their_values(
    year1: u16,
    month1: u8,
    day1: u8,
    year2: u16,
    month2: u8,
    day2: u8,
)
    requires
        1 <= month1 <= 12,
        1 <= day1 <= 31,
        1 <= month2 <= 12,
        1 <= day2 <= 31,
    ensures
        FastDate::spec_from(year1 as int, month1 as int, day1 as int) == FastDate::spec_from(
            year2 as int,
            month2 as int,
            day2 as int,
        ) <==> (year1 == year2 && month1 == month2 && day1 == day2),
{
    lemma_spec_from(year1 as int, month1 as int, day1 as int);
    lemma_spec_from(year2 as int, month2 as int, day2 as int);
}

/// Dates compare in calendar order: of two dates built out of a month from 1 to 12 and a day
/// from 1 to 31, the one with the earlier year, or the same year and an earlier month, or the
/// same year and month and an earlier day, holds the smaller value.
pub proof fn law_dates_compare_in_calendar_order(
    year1: u16,
    month1: u8,
    day1: u8,
    year2: u16,
    month2: u8,
    day2: u8,
)
    requires
        1 <= month1 <= 12,
        1 <= day1 <= 31,
        1 <= month2 <= 12,
        1 <= day2 <= 31,
    ensures
        FastDate::spec_from(year1 as int, month1 as int, day1 as int)@ < FastDate::spec_from(
            year2 as int,
            month2 as int,
            day2 as int,
        )@ <==> (year1 < year2 || (year1 == year2 && (month1 < month2 || (month1 == month2 && day1
            < day2)))),
{
    lemma_spec_from(year1 as int, month1 as int, day1 as int);
    lemma_spec_from(year2 as int, month2 as int, day2 as int);
    law_week_from_1_to_53(month1 as int, day1 as int);
    law_week_from_1_to_53(month2 as int, day2 as int);
}

/// A week is seven days long: seven days later within a month is one week later, and the
/// first seven days of the year are its first week.
pub proof fn law_weeks_are_seven_days(month: int, day: int)
    requires
        1 <= month <= 12,
        1 <= day,
        day + 7 <= month_length(month),
    ensures
        week_of(month, day + 7) == week_of(month, day) + 1,
        1 <= day <= 7 ==> week_of(1, day) == 1,
{
}

/// What `spec_from` builds out of values in range.
pub proof fn lemma_spec_from(year: int, month: int, day: int)
    requires
        0 <= year < 65536,
        1 <= month <= 12,
        1 <= day <= 31,
    ensures
        FastDate::spec_from(year, month, day).holds(year, month, day, week_of(month, day)),
        FastDate::spec_from(year, month, day).is_valid(),
        FastDate::spec_from(year, month, day)@ == pack(year, month, day, week_of(month, day)),
{
    let d = FastDate::spec_from(year, month, day);
    let w = week_of(month, day);
    assert(1 <= w <= 53);
    let y = year as u32;
    let m = month as u32;
    let dd = day as u32;
    let ww = w as u32;
    assert({
        let n = y * 65536 + m * 4096 + dd * 64 + ww;
        &&& n / 65536 == y
        &&& (n / 4096) % 16 == m
        &&& (n / 64) % 64 == dd
        &&& n % 64 == ww
    }) by (bit_vector)
        requires
            y < 65536,
            m < 16,
            dd < 64,
            ww < 64,
    ;
}

/// Every packed value is the sum of its four fields at their places.
pub proof fn lemma_fields_make_up_value(d: FastDate)
    ensures
        d@ as int == pack(d.spec_year(), d.spec_month(), d.spec_day(), d.spec_week()),
        0 <= d.spec_year() < 65536,
        0 <= d.spec_month() < 16,
        0 <= d.spec_day() < 64,
        0 <= d.spec_week() < 64,
{
    let x = d@;
    assert(x == (x / 65536) * 65536 + ((x / 4096) % 16) * 4096 + ((x / 64) % 64) * 64 + x % 64)
        by (bit_vector);
    assert(x / 65536 < 65536 && (x / 4096) % 16 < 16 && (x / 64) % 64 < 64 && x % 64 < 64)
        by (bit_vector);
}

/// Comparing two valid dates by their packed values is comparing them by
/// year, then month, then day: the week follows from month and day.
pub proof fn lemma_order_is_calendar_order(a: FastDate, b: FastDate)
    requires
        a.is_valid(),
        b.is_valid(),
    ensures
        (a@ == b@) <==> (a.spec_year() == b.spec_year() && a.spec_month() == b.spec_month()
            && a.spec_day() == b.spec_day()),
        (a@ < b@) <==> (a.spec_year() < b.spec_year() || (a.spec_year() == b.spec_year()
            && a.spec_month() < b.spec_month()) || (a.spec_year() == b.spec_year()
            && a.spec_month() == b.spec_month() && a.spec_day() < b.spec_day())),
{
    lemma_fields_make_up_value(a);
    lemma_fields_make_up_value(b);
}

/// The number of days of month `month` (1 to 12) in a year that is not a leap year.
pub open spec fn month_length(month: int) -> int {
    if month == 2 {
        28
    } else if month == 4 || month == 6 || month == 9 || month == 11 {
        30
    } else {
        31
    }
}

/// No day of the year lies before January; before each later month lie the days before the
/// month ahead of it and all days of that month, in a year that is not a leap year.
pub proof fn law_days_before_a_month_add_up(month: int)
    requires
        1 <= month <= 11,
    ensures
        days_before_month(1) == 0,
        days_before_month(month + 1) == days_before_month(month) + month_length(month),
{
}

/// The week of a date never decreases as the date moves forward through the year: a day of a
/// month (within the length of that month) lies in no later week than any day of a later
/// month, or a later day of the same month.
pub proof fn law_week_never_decreases(month1: int, day1: int, month2: int, day2: int)
    requires
        1 <= month1 <= 12,
        1 <= month2 <= 12,
        1 <= day1 <= month_length(month1),
        1 <= day2 <= 31,
        month1 < month2 || (month1 == month2 && day1 <= day2),
    ensures
        week_of(month1, day1) <= week_of(month2, day2),
{
    let a = days_before_month(month1) + day1;
    let b = days_before_month(month2) + day2;
    if month1 < month2 {
        assert forall|m: int| month1 < m <= month2 implies days_before_month(m) >= days_before_month(
            month1,
        ) + month_length(month1) by {}
    }
    assert(a <= b);
    assert((a + 6) / 7 <= (b + 6) / 7) by (nonlinear_arith)
        requires
            a <= b,
            0 <= a,
    ;
}

/// A valid month and day fall into a week from 1 to 53.
pub proof fn law_week_from_1_to_53(month: int, day: int)
    requires
        1 <= month <= 12,
        1 <= day <= 31,
    ensures
        1 <= week_of(month, day) <= 53,
{
}

} // verus!
