use crate::accounting::GOAL_DEFAULT;
use vstd::prelude::*;

verus! {

/// The data file of the first version: a list of years, ordered by their numbers.
///
/// Floating point values are held as their bit patterns (`f64::to_bits`); the library
/// only stores and hands them back.
#[derive(Debug, Clone, PartialEq)]
pub struct YamlFile {
    pub version: u8,
    /// bits of an `f64`
    pub goal: u64,
    pub years: Vec<Year>,
}

/// Income and expenses of one year and its months.
#[derive(Debug, Clone, Copy, PartialEq, Eq)]
pub struct Year {
    pub year_nr: u16,
    /// bits of an `f64`
    pub income: u64,
    /// bits of an `f64`
    pub expenses: u64,
    pub months: [Month; 12],
}

/// Income and expenses of one month.
#[derive(Debug, Clone, Copy, PartialEq, Eq, Structural)]
pub struct Month {
    pub month_nr: u8,
    /// bits of an `f64`
    pub income: u64,
    /// bits of an `f64`
    pub expenses: u64,
    /// bits of an `f64`
    pub difference: u64,
    /// bits of an `f64`
    pub percentage: u64,
}

/// A month without values (all of them `0.0`).
pub open spec fn empty_month(month_nr: u8) -> Month {
    Month { month_nr, income: 0, expenses: 0, difference: 0, percentage: 0 }
}

/// `y` holds `year_nr` and twelve months without values, numbered 1 to 12.
pub open spec fn is_empty_year(y: Year, year_nr: u16) -> bool {
    &&& y.year_nr == year_nr
    &&& y.income == 0
    &&& y.expenses == 0
    &&& forall|i: int| 0 <= i < 12 ==> #[trigger] y.months@[i] == empty_month((i + 1) as u8)
}

/// The index of the first year whose number is greater than `year_nr`, or the length of
/// `years` if there is none: where a year that is not in `years` is put in.
pub open spec fn insert_index(years: Seq<Year>, year_nr: u16) -> int
    decreases years.len(),
{
    if years.len() == 0 {
        0
    } else if years[0].year_nr > year_nr {
        0
    } else {
        1 + insert_index(years.drop_first(), year_nr)
    }
}

/// The years are ordered by their numbers, and no number occurs twice.
pub open spec fn strictly_ascending(years: Seq<Year>) -> bool {
    forall|i: int, j: int| 0 <= i < j < years.len() ==> years[i].year_nr < years[j].year_nr
}

/// The years are ordered by their numbers (years with the same number may follow each other).
pub open spec fn ascending_years(years: Seq<Year>) -> bool {
    forall|i: int, j: int| 0 <= i <= j < years.len() ==> years[i].year_nr <= years[j].year_nr
}

/// The years of `s` whose number is `y`, in their order.
pub open spec fn years_numbered(s: Seq<Year>, y: u16) -> Seq<Year>
    decreases s.len(),
{
    if s.len() == 0 {
        Seq::empty()
    } else if s.last().year_nr == y {
        years_numbered(s.drop_last(), y).push(s.last())
    } else {
        years_numbered(s.drop_last(), y)
    }
}

proof fn lemma_years_numbered_add(a: Seq<Year>, b: Seq<Year>, y: u16)
    ensures
        years_numbered(a + b, y) == years_numbered(a, y) + years_numbered(b, y),
    decreases b.len(),
{
    if b.len() == 0 {
        assert(a + b =~= a);
        assert(years_numbered(a, y) + years_numbered(b, y) =~= years_numbered(a, y));
    } else {
        lemma_years_numbered_add(a, b.drop_last(), y);
        assert((a + b).drop_last() =~= a + b.drop_last());
        assert((a + b).last() == b.last());
        if b.last().year_nr == y {
            assert(years_numbered(a, y) + years_numbered(b.drop_last(), y).push(b.last())
                =~= (years_numbered(a, y) + years_numbered(b.drop_last(), y)).push(b.last()));
        }
    }
}

proof fn lemma_years_numbered_none(b: Seq<Year>, y: u16)
    requires
        forall|k: int| 0 <= k < b.len() ==> #[trigger] b[k].year_nr != y,
    ensures
        years_numbered(b, y) == Seq::<Year>::empty(),
    decreases b.len(),
{
    if b.len() > 0 {
        lemma_years_numbered_none(b.drop_last(), y);
    }
}

/// Some year of `years` has the number `year_nr`.
pub open spec fn has_year(years: Seq<Year>, year_nr: u16) -> bool {
    exists|i: int| 0 <= i < years.len() && #[trigger] years[i].year_nr == year_nr
}

proof fn lemma_insert_index(years: Seq<Year>, year_nr: u16)
    ensures
        0 <= insert_index(years, year_nr) <= years.len(),
        forall|i: int| 0 <= i < insert_index(years, year_nr) ==> years[i].year_nr <= year_nr,
        insert_index(years, year_nr) < years.len() ==> years[insert_index(
            years,
            year_nr,
        )].year_nr > year_nr,
    decreases years.len(),
{
    if years.len() > 0 && years[0].year_nr <= year_nr {
        lemma_insert_index(years.drop_first(), year_nr);
        assert forall|i: int| 0 <= i < insert_index(years, year_nr) implies years[i].year_nr
            <= year_nr by {
            if i > 0 {
                assert(years[i] == years.drop_first()[i - 1]);
            }
        }
    }
}

/// Adding a year that is missing to years ordered by their numbers, at the place
/// `add_or_get_year` puts it, keeps them ordered, and the year is then there.
pub proof fn law_add_year_keeps_order(years: Seq<Year>, year: Year)
    requires
        strictly_ascending(years),
        !has_year(years, year.year_nr),
    ensures
        strictly_ascending(years.insert(insert_index(years, year.year_nr), year)),
        has_year(years.insert(insert_index(years, year.year_nr), year), year.year_nr),
{
    lemma_insert_index(years, year.year_nr);
    let at = insert_index(years, year.year_nr);
    let after = years.insert(at, year);
    assert(after[at].year_nr == year.year_nr);
    assert forall|i: int, j: int| 0 <= i < j < after.len() implies after[i].year_nr
        < after[j].year_nr by {
        if i < at && j < at {
        } else if i < at && j == at {
            assert(years[i].year_nr <= year.year_nr);
            assert(years[i].year_nr != year.year_nr);
        } else if i < at && j > at {
            assert(after[j] == years[j - 1]);
        } else if i == at {
            assert(after[j] == years[j - 1]);
            assert(years[at].year_nr > year.year_nr);
            if j - 1 > at {
                assert(years[at].year_nr < years[j - 1].year_nr);
            }
        } else {
            assert(after[i] == years[i - 1]);
            assert(after[j] == years[j - 1]);
        }
    }
}

impl Month {
    /// A month without values.
    pub fn default(month: u8) -> (m: Self)
        ensures
            m == empty_month(month),
    {
        Self { month_nr: month, income: 0, expenses: 0, difference: 0, percentage: 0 }
    }

    /// Twelve months without values, numbered 1 to 12.
    pub fn default_months() -> (m: [Self; 12])
        ensures
            forall|i: int| 0 <= i < 12 ==> #[trigger] m@[i] == empty_month((i + 1) as u8),
    {
        [
            Month::default(1),
            Month::default(2),
            Month::default(3),
            Month::default(4),
            Month::default(5),
            Month::default(6),
            Month::default(7),
            Month::default(8),
            Month::default(9),
            Month::default(10),
            Month::default(11),
            Month::default(12),
        ]
    }
}

impl Year {
    /// A year without values.
    pub fn default(year_nr: u16) -> (y: Self)
        ensures
            is_empty_year(y, year_nr),
    {
        Year { year_nr, income: 0, expenses: 0, months: Month::default_months() }
    }
}

impl YamlFile {
    /// Version 1, the goal is 100% (the bits of `1.0`), no years.
    pub fn default() -> (f: Self)
        ensures
            f.version == 1,
            f.goal == GOAL_DEFAULT,
            f.years@ == Seq::<Year>::empty(),
    {
        YamlFile { version: 1, goal: GOAL_DEFAULT, years: Vec::new() }
    }

    /// - if the year does not already exist, adds it to `YamlFile.years` with default values,
    ///   before the first year with a greater number (or at the end)
    /// - changes nothing if the year exists
    /// - returns the year as a mutable reference (`&mut Year`)`
    ///   - this allows function chaining: `YamlFile.add_or_get_year().function_on_year()`
    pub fn add_or_get_year(&mut self, year_nr: u16) -> (y: &mut Year)
        ensures
            final(self).version == old(self).version,
            final(self).goal == old(self).goal,
            has_year(old(self).years@, year_nr) ==> exists|i: int|
                0 <= i < old(self).years@.len() && #[trigger] old(self).years@[i].year_nr == year_nr
                    && (forall|j: int| 0 <= j < i ==> old(self).years@[j].year_nr != year_nr)
                    && *y == old(self).years@[i]
                    && final(self).years@ == old(self).years@.update(i, *final(y)),
            !has_year(old(self).years@, year_nr) ==> is_empty_year(*y, year_nr),
            !has_year(old(self).years@, year_nr) ==> final(self).years@ == old(self).years@.insert(
                insert_index(old(self).years@, year_nr),
                *final(y),
            ),
    {
        let ghost years = self.years@;
        let mut lt_index: Option<usize> = None;  // year_nr is less than the year at this index
        let mut gt_index: Option<usize> = None;  // year_nr is greater then  the year at this index
        let mut eq_index: Option<usize> = None;  // only used if the year exists

        let n = self.years.len();
        let mut index: usize = 0;
        while index < n
            invariant_except_break
                eq_index is None,
            invariant
                self.years@ == years,
                n == years.len(),
                index <= n,
                forall|j: int| 0 <= j < index ==> years[j].year_nr != year_nr,
                match lt_index {
                    None => forall|j: int| 0 <= j < index ==> years[j].year_nr <= year_nr,
                    Some(l) => l < index && years[l as int].year_nr > year_nr && forall|j: int|
                        0 <= j < l ==> years[j].year_nr <= year_nr,
                },
                match gt_index {
                    None => forall|j: int| 0 <= j < index ==> years[j].year_nr >= year_nr,
                    Some(g) => g < index && years[g as int].year_nr < year_nr,
                },
                lt_index is None && index > 0 ==> gt_index == Some((index - 1) as usize),
            ensures
                eq_index matches Some(e) ==> e < n && years[e as int].year_nr == year_nr && forall|
                    j: int,
                | 0 <= j < e ==> years[j].year_nr != year_nr,
                eq_index is None ==> index == n,
            decreases n - index,
        {
            let this_year = self.years[index].year_nr;
            if this_year == year_nr {
                eq_index = Some(index);
                break ;
            } else if year_nr > this_year {
                gt_index = Some(index);
            } else if (year_nr < this_year) && (lt_index.is_none()) {
                // checking for None is only needed for "less-then" because the years are ordered ascendingly
                lt_index = Some(index);
            }
            index += 1;
        }

        proof {
            lemma_insert_index(years, year_nr);
        }
        match eq_index {
            // the year does exist
            Some(i) => {
                return &mut self.years[i];
            },
            None => {},
        }

        // the year does not yet exist
        let insert_at: usize = match (lt_index, gt_index) {
            (Some(l), Some(_)) => l,  // year has to be somewhere in the middle
            (None, Some(g)) => g + 1,  // all years are smaller than year_nr
            // all years are greater than year_nr, or no years yet exist
            _ => 0,
        };
        proof {
            assert(insert_at == insert_index(years, year_nr)) by {
                if insert_at < insert_index(years, year_nr) {
                    assert(years[insert_at as int].year_nr > year_nr);
                }
                if insert_index(years, year_nr) < insert_at {
                    assert(years[insert_index(years, year_nr)].year_nr > year_nr);
                }
            }
        }

        self.years.insert(insert_at, Year::default(year_nr));
        &mut self.years[insert_at]
    }

    /// Orders the years by their numbers, ascending; years with the same number keep
    /// their order.
    pub fn order_years(&mut self)
        ensures
            final(self).version == old(self).version,
            final(self).goal == old(self).goal,
            ascending_years(final(self).years@),
            final(self).years@.to_multiset() == old(self).years@.to_multiset(),
            forall|y: u16| #[trigger]
                years_numbered(final(self).years@, y) == years_numbered(old(self).years@, y),
    {
        broadcast use vstd::seq_lib::group_to_multiset_ensures;

        let mut sorted: Vec<Year> = Vec::new();
        let n = self.years.len();
        let mut i: usize = 0;
        while i < n
            invariant
                n == self.years.len(),
                self.years@ == old(self).years@,
                self.version == old(self).version,
                self.goal == old(self).goal,
                i <= n,
                ascending_years(sorted@),
                sorted@.to_multiset() == self.years@.take(i as int).to_multiset(),
                forall|y: u16| #[trigger]
                    years_numbered(sorted@, y) == years_numbered(self.years@.take(i as int), y),
            decreases n - i,
        {
            let x = self.years[i];
            let mut j: usize = 0;
            while j < sorted.len() && sorted[j].year_nr <= x.year_nr
                invariant
                    j <= sorted.len(),
                    forall|k: int| 0 <= k < j ==> sorted@[k].year_nr <= x.year_nr,
                decreases sorted.len() - j,
            {
                j += 1;
            }
            proof {
                assert(forall|k: int| j <= k < sorted@.len() ==> sorted@[k].year_nr > x.year_nr);
            }
            let ghost before = sorted@;
            sorted.insert(j, x);
            proof {
                assert(self.years@.take(i + 1) == self.years@.take(i as int).push(x));
                vstd::seq_lib::to_multiset_insert(before, j as int, x);
                vstd::seq_lib::to_multiset_build(self.years@.take(i as int), x);
                assert forall|a: int, b: int| 0 <= a <= b < sorted@.len() implies sorted@[a].year_nr
                    <= sorted@[b].year_nr by {
                    if a < j && b > j {
                        assert(sorted@[b] == before[b - 1]);
                    }
                    if a > j {
                        assert(sorted@[a] == before[a - 1]);
                        assert(sorted@[b] == before[b - 1]);
                    }
                }
                // the years with the number of `x` all lie before `j`, so `x` follows them
                let t = before.take(j as int);
                let r = before.skip(j as int);
                assert(before =~= t + r);
                assert(sorted@ =~= t.push(x) + r);
                assert(t.push(x).drop_last() =~= t);
                assert(self.years@.take(i + 1).drop_last() =~= self.years@.take(i as int));
                assert forall|y: u16| #[trigger]
                    years_numbered(sorted@, y) == years_numbered(self.years@.take(i + 1), y) by {
                    lemma_years_numbered_add(t, r, y);
                    lemma_years_numbered_add(t.push(x), r, y);
                    if y == x.year_nr {
                        assert forall|k: int| 0 <= k < r.len() implies #[trigger] r[k].year_nr != y by {
                            assert(r[k] == before[j + k]);
                        }
                        lemma_years_numbered_none(r, y);
                        assert(years_numbered(t, y) + Seq::<Year>::empty() =~= years_numbered(t, y));
                        assert(years_numbered(t, y).push(x) + Seq::<Year>::empty() =~= years_numbered(t, y).push(x));
                    }
                }
            }
            i += 1;
        }
        proof {
            assert(self.years@.take(n as int) == self.years@);
        }
        self.years = sorted;
    }
}

} // verus!
