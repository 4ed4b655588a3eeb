use vstd::prelude::*;

verus! {

/// Income, expenses and a note of one month.
///
/// Income and expenses are held in cents: the absolute values, rounded to two decimal
/// places, are what is stored.
#[derive(Debug, Clone, PartialEq, Eq)]
pub struct AccountingMonth {
    month_nr: u8,
    /// in cents
    income: u64,
    /// in cents
    expenses: u64,
    note: String,
}

impl View for AccountingMonth {
    /// (month number, income, expenses, note)
    type V = (u8, u64, u64, Seq<char>);

    closed spec fn view(&self) -> (u8, u64, u64, Seq<char>) {
        (self.month_nr, self.income, self.expenses, self.note@)
    }
}

/// A month without values: no income, no expenses and an empty note.
pub open spec fn is_default_month(m: (u8, u64, u64, Seq<char>), month_nr: u8) -> bool {
    m == (month_nr, 0u64, 0u64, Seq::<char>::empty())
}

/// The months hold the numbers 1 to 12 in order and no values.
pub open spec fn are_default_months(months: Seq<AccountingMonth>) -> bool {
    &&& months.len() == 12
    &&& forall|i: int| 0 <= i < 12 ==> is_default_month(#[trigger] months[i]@, (i + 1) as u8)
}

impl AccountingMonth {
    pub fn default(month: u8) -> (m: Self)
        ensures
            is_default_month(m@, month),
    {
        Self { month_nr: month, income: 0, expenses: 0, note: String::new() }
    }

    /// Income and expenses in cents.
    pub fn new(month_nr: u8, income: u64, expenses: u64, note: String) -> (m: Self)
        ensures
            m@ == (month_nr, income, expenses, note@),
    {
        Self { month_nr, income, expenses, note }
    }

    /// Twelve months without values, numbered 1 to 12.
    pub fn default_months() -> (m: [AccountingMonth; 12])
        ensures
            are_default_months(m@),
    {
        let m = [
            Self::default(1),
            Self::default(2),
            Self::default(3),
            Self::default(4),
            Self::default(5),
            Self::default(6),
            Self::default(7),
            Self::default(8),
            Self::default(9),
            Self::default(10),
            Self::default(11),
            Self::default(12),
        ];
        assert(is_default_month(m@[0]@, 1));
        m
    }

    // Getters
    pub fn month_nr(&self) -> (r: u8)
        ensures
            r == self@.0,
    {
        self.month_nr
    }

    /// in cents
    pub fn income(&self) -> (r: u64)
        ensures
            r == self@.1,
    {
        self.income
    }

    /// in cents
    pub fn expenses(&self) -> (r: u64)
        ensures
            r == self@.2,
    {
        self.expenses
    }

    pub fn note(&self) -> (r: &str)
        ensures
            r@ == self@.3,
    {
        self.note.as_str()
    }

    // note doesnt need any content checking, because yaml can store any String
    pub fn note_mut(&mut self) -> (r: &mut String)
        ensures
            r@ == old(self)@.3,
            final(self)@ == (old(self)@.0, old(self)@.1, old(self)@.2, final(r)@),
    {
        &mut self.note
    }

    // Setters
    // month_nr cannot be changed after the month was created
    /// in cents
    pub fn set_income(&mut self, income: u64)
        ensures
            final(self)@ == (old(self)@.0, income, old(self)@.2, old(self)@.3),
    {
        self.income = income;
    }

    /// in cents
    pub fn set_expenses(&mut self, expenses: u64)
        ensures
            final(self)@ == (old(self)@.0, old(self)@.1, expenses, old(self)@.3),
    {
        self.expenses = expenses;
    }

    pub fn set_note(&mut self, note: String)
        ensures
            final(self)@ == (old(self)@.0, old(self)@.1, old(self)@.2, note@),
    {
        self.note = note;
    }

    // Others
    /// Income minus expenses, in cents.
    pub fn difference(&self) -> (d: i128)
        ensures
            d == self@.1 - self@.2,
    {
        self.income as i128 - self.expenses as i128
    }

    /// The month holds no values.
    pub fn is_default(&self) -> (r: bool)
        ensures
            r == is_default_month(self@, self@.0),
    {
        let empty = self.note.as_str().unicode_len() == 0;
        proof {
            if empty {
                assert(self.note@ =~= Seq::<char>::empty());
            }
        }
        self.income == 0 && self.expenses == 0 && empty
    }
}

} // verus!
