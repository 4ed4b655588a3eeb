use crate::investing::inv_months::InvestmentMonth;
use vstd::prelude::*;

verus! {

/// The twelve months of one year of an investment.
#[derive(Debug, Clone, Copy, PartialEq, Eq)]
pub struct InvestmentYear {
    pub year_nr: u16,
    pub months: [InvestmentMonth; 12],
}

/// The months hold the numbers 1 to 12 in order and no values.
pub open spec fn are_default_months(months: Seq<InvestmentMonth>) -> bool {
    &&& months.len() == 12
    &&& forall|i: int| 0 <= i < 12 ==> #[trigger] months[i]@ == ((i + 1) as u8, 0u64, 0u64, 0u64)
}

impl InvestmentYear {
    /// This year holds `year_nr` and twelve months without values.
    pub open spec fn is_default_for(self, year_nr: u16) -> bool {
        self.year_nr == year_nr && are_default_months(self.months@)
    }

    pub fn default(year_nr: u16) -> (y: Self)
        ensures
            y.is_default_for(year_nr),
    {
        Self { year_nr, months: Self::default_months() }
    }

    /// Twelve months without values, numbered 1 to 12.
    pub fn default_months() -> (m: [InvestmentMonth; 12])
        ensures
            are_default_months(m@),
    {
        let m = [
            InvestmentMonth::default(1),
            InvestmentMonth::default(2),
            InvestmentMonth::default(3),
            InvestmentMonth::default(4),
            InvestmentMonth::default(5),
            InvestmentMonth::default(6),
            InvestmentMonth::default(7),
            InvestmentMonth::default(8),
            InvestmentMonth::default(9),
            InvestmentMonth::default(10),
            InvestmentMonth::default(11),
            InvestmentMonth::default(12),
        ];
        assert(m@[0]@ == (1u8, 0u64, 0u64, 0u64));
        m
    }
}

} // verus!
