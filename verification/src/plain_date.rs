use vstd::prelude::*;

verus! {

/// A calendar date of the first data file version, packed into one `u32`:
///
/// ```text
/// 0000 0000 0000 0000 0000 0000 0000 0000
/// |------Year-------| |-Month-| |--Day--|
/// ```
///
/// Expects to be used with "normal" values: January = 1, December = 12, First day in month = 1.
/// Comparing two dates compares the packed values.
#[derive(Debug, Clone, Copy, PartialEq, Eq, Structural, PartialOrd, Ord, Hash)]
pub struct FastDate(u32);

impl View for FastDate {
    type V = u32;

    closed spec fn view(&self) -> u32 {
        self.0
    }
}

impl FastDate {
    /// The year stored in the packed value.
    pub open spec fn spec_year(self) -> int {
        self@ as int / 65536
    }

    /// The month stored in the packed value.
    pub open spec fn spec_month(self) -> int {
        (self@ as int / 256) % 256
    }

    /// The day stored in the packed value.
    pub open spec fn spec_day(self) -> int {
        self@ as int % 256
    }

    /// The date holds exactly these three values.
    pub open spec fn holds(self, year: int, month: int, day: int) -> bool {
        &&& self.spec_year() == year
        &&& self.spec_month() == month
        &&& self.spec_day() == day
    }

    /// This returns with Err if
    /// - month > 12 or 0
    /// - day > 31 or 0
    pub fn new(year: u16, month: u8, day: u8) -> (r: Result<Self, ()>)
        ensures
            r is Ok <==> (1 <= month <= 12 && 1 <= day <= 31),
            r matches Ok(d) ==> d.holds(year as int, month as int, day as int) && d@ == year as int
                * 65536 + month as int * 256 + day as int,
    {
        if month > 12 || day > 31 || month == 0 || day == 0 {
            return Err(());
        }
        let v = (year as u32) << 16u32 | (month as u32) << 8u32 | (day as u32);
        assert({
            let v = (year as u32) << 16u32 | (month as u32) << 8u32 | (day as u32);
            &&& v / 65536 == year as u32
            &&& (v / 256) % 256 == month as u32
            &&& v % 256 == day as u32
            &&& v == year as u32 * 65536 + month as u32 * 256 + day as u32
        }) by (bit_vector);
        Ok(Self(v))
    }

    /// (Year, Month, Day)
    pub fn date(&self) -> (r: (u16, u8, u8))
        ensures
            r.0 == self.spec_year(),
            r.1 == self.spec_month(),
            r.2 == self.spec_day(),
    {
        (self.year(), self.month(), self.day())
    }

    pub fn year(&self) -> (y: u16)
        ensures
            y == self.spec_year(),
    {
        let x = self.0;
        assert((x >> 16u32) as u16 == x / 65536) by (bit_vector);
        (x >> 16u32) as u16
    }

    pub fn month(&self) -> (m: u8)
        ensures
            m == self.spec_month(),
    {
        let x = self.0;
        assert((x >> 8u32) as u8 == (x / 256) % 256) by (bit_vector);
        (x >> 8u32) as u8
    }

    pub fn day(&self) -> (d: u8)
        ensures
            d == self.spec_day(),
    {
        let x = self.0;
        assert(x as u8 == x % 256) by (bit_vector);
        x as u8
    }

    /// The date whose packed value is `raw`, as it was stored.
    pub fn from_raw(raw: u32) -> (d: Self)
        ensures
            d@ == raw,
    {
        Self(raw)
    }

    /// The packed value.
    pub fn raw(&self) -> (r: u32)
        ensures
            r == self@,
    {
        self.0
    }

    /// Replaces the year, keeps month and day.
    pub fn set_year(&mut self, year: u16)
        ensures
            final(self).holds(year as int, old(self).spec_month(), old(self).spec_day()),
    {
        let x = self.0;
        assert({
            let n = (x & 0x0000_FFFFu32) | (year as u32) << 16u32;
            &&& n / 65536 == year as u32
            &&& (n / 256) % 256 == (x / 256) % 256
            &&& n % 256 == x % 256
        }) by (bit_vector);
        self.0 = (x & 0x0000_FFFFu32) | (year as u32) << 16u32;
    }

    /// Expects month to be `>= 1 && <= 12`, will return `Err` (and change nothing) if thats not the case
    pub fn set_month(&mut self, month: u8) -> (r: Result<(), ()>)
        ensures
            r is Ok <==> 1 <= month <= 12,
            r is Err ==> *final(self) == *old(self),
            r is Ok ==> final(self).holds(old(self).spec_year(), month as int, old(self).spec_day()),
    {
        if month > 12 || month == 0 {
            return Err(());
        }
        let x = self.0;
        assert({
            let n = (x & 0xFFFF_00FFu32) | (month as u32) << 8u32;
            &&& n / 65536 == x / 65536
            &&& (n / 256) % 256 == month as u32
            &&& n % 256 == x % 256
        }) by (bit_vector);
        self.0 = (x & 0xFFFF_00FFu32) | (month as u32) << 8u32;
        Ok(())
    }

    /// Expects day to be `>= 1 && <= 31`, will return `Err` (and change nothing) if thats not the case
    pub fn set_day(&mut self, day: u8) -> (r: Result<(), ()>)
        ensures
            r is Ok <==> 1 <= day <= 31,
            r is Err ==> *final(self) == *old(self),
            r is Ok ==> final(self).holds(old(self).spec_year(), old(self).spec_month(), day as int),
    {
        if day > 31 || day == 0 {
            return Err(());
        }
        let x = self.0;
        assert({
            let n = (x & 0xFFFF_FF00u32) | (day as u32);
            &&& n / 65536 == x / 65536
            &&& (n / 256) % 256 == (x / 256) % 256
            &&& n % 256 == day as u32
        }) by (bit_vector);
        self.0 = (x & 0xFFFF_FF00u32) | (day as u32);
        Ok(())
    }
}

/// Comparing the packed values of two dates compares year, then month, then day.
pub proof fn law_order_is_calendar_order(a: FastDate, b: FastDate)
    ensures
        (a@ < b@) <==> (a.spec_year() < b.spec_year() || (a.spec_year() == b.spec_year()
            && a.spec_month() < b.spec_month()) || (a.spec_year() == b.spec_year()
            && a.spec_month() == b.spec_month() && a.spec_day() < b.spec_day())),
        (a@ == b@) <==> a.holds(b.spec_year(), b.spec_month(), b.spec_day()),
{
    let x = a@;
    let y = b@;
    assert(x == (x / 65536) * 65536 + ((x / 256) % 256) * 256 + x % 256) by (nonlinear_arith);
    assert(y == (y / 65536) * 65536 + ((y / 256) % 256) * 256 + y % 256) by (nonlinear_arith);
}

} // verus!
