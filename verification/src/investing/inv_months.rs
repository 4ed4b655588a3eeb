use vstd::prelude::*;

verus! {

/// The state of one investment in one month.
///
/// Values are held in hundredths (two decimal places), which is the precision
/// every value is rounded to before it is stored; they are never negative.
#[derive(Debug, Clone, Copy, PartialEq, Eq, Structural)]
pub struct InvestmentMonth {
    // transactions done because of the savings plan are not copied here
    month_nr: u8,
    /// how many units are held, in hundredths
    amount: u64,
    /// what was the price per unit at the time of adding this data, in hundredths
    price_per_unit: u64,
    /// (eg. dividends), these are not excluded from amount and price; in hundredths
    additional_transactions: u64,
}

impl View for InvestmentMonth {
    /// (month number, amount, price per unit, additional transactions)
    type V = (u8, u64, u64, u64);

    closed spec fn view(&self) -> (u8, u64, u64, u64) {
        (self.month_nr, self.amount, self.price_per_unit, self.additional_transactions)
    }
}

impl InvestmentMonth {
    /// A month without any values. The month number has to be 1-12.
    pub fn default(month_nr: u8) -> (m: Self)
        requires
            1 <= month_nr <= 12,
        ensures
            m@ == (month_nr, 0u64, 0u64, 0u64),
    {
        Self { month_nr, amount: 0, price_per_unit: 0, additional_transactions: 0 }
    }

    /// The month number has to be 1-12.
    pub fn new(month_nr: u8, amount: u64, price_per_unit: u64, additional_transactions: u64) -> (m:
        Self)
        requires
            1 <= month_nr <= 12,
        ensures
            m@ == (month_nr, amount, price_per_unit, additional_transactions),
    {
        Self { month_nr, amount, price_per_unit, additional_transactions }
    }

    // ---------- Getters ----------
    pub fn month_nr(&self) -> (r: u8)
        ensures
            r == self@.0,
    {
        self.month_nr
    }

    pub fn amount(&self) -> (r: u64)
        ensures
            r == self@.1,
    {
        self.amount
    }

    pub fn price_per_unit(&self) -> (r: u64)
        ensures
            r == self@.2,
    {
        self.price_per_unit
    }

    pub fn additional_transactions(&self) -> (r: u64)
        ensures
            r == self@.3,
    {
        self.additional_transactions
    }

    // ---------- Setters ----------
    pub fn set_amount(&mut self, amount: u64)
        ensures
            final(self)@ == (old(self)@.0, amount, old(self)@.2, old(self)@.3),
    {
        self.amount = amount;
    }

    pub fn set_price_per_unit(&mut self, price_per_unit: u64)
        ensures
            final(self)@ == (old(self)@.0, old(self)@.1, price_per_unit, old(self)@.3),
    {
        self.price_per_unit = price_per_unit;
    }

    pub fn set_additional_transactions(&mut self, additional_transactions: u64)
        ensures
            final(self)@ == (old(self)@.0, old(self)@.1, old(self)@.2, additional_transactions),
    {
        self.additional_transactions = additional_transactions;
    }
}

} // verus!
