use crate::investing::inv_variant::InvestmentVariant;
use crate::investing::inv_year::InvestmentYear;
use crate::investing::SavingsPlanInterval;
use std::collections::HashMap;
use vstd::multiset::Multiset;
use vstd::prelude::*;

verus! {

/// One section of a savings plan of the first data file version, from a start month to an
/// end month (both inclusive).
#[derive(Debug, Clone, Copy, PartialEq, Eq, Structural)]
pub struct SavingsPlanSection {
    pub start_year: u16,
    pub start_month: u8,
    pub end_year: u16,
    pub end_month: u8,
    /// The amount per interval, held as the bit pattern of an `f64` (`f64::to_bits`).
    pub amount: u64,
    pub interval: SavingsPlanInterval,
}

/// `a` starts in an earlier year than `b`, or in the same year no later month.
pub open spec fn starts_no_later(a: SavingsPlanSection, b: SavingsPlanSection) -> bool {
    a.start_year < b.start_year || (a.start_year == b.start_year && a.start_month <= b.start_month)
}

/// The sections are ordered by their start year, then their start month.
pub open spec fn ordered_by_start(s: Seq<SavingsPlanSection>) -> bool {
    forall|i: int, j: int| 0 <= i <= j < s.len() ==> starts_no_later(s[i], s[j])
}

/// The section does not end after it starts: its start year lies after its end year, or both
/// are the same year and its start month is not before its end month.
pub open spec fn has_no_range(new: SavingsPlanSection) -> bool {
    new.start_year > new.end_year || (new.start_year == new.end_year && new.start_month
        >= new.end_month)
}

/// The month `m1` of year `y1` comes before the month `m2` of year `y2`.
pub open spec fn month_before(y1: u16, m1: u8, y2: u16, m2: u8) -> bool {
    y1 < y2 || (y1 == y2 && m1 < m2)
}

/// `new` ends before the month in which `this` starts.
pub open spec fn ends_before(new: SavingsPlanSection, this: SavingsPlanSection) -> bool {
    month_before(new.end_year, new.end_month, this.start_year, this.start_month)
}

/// `new` starts after the month in which `this` ends.
pub open spec fn starts_after(new: SavingsPlanSection, this: SavingsPlanSection) -> bool {
    month_before(this.end_year, this.end_month, new.start_year, new.start_month)
}

/// `new` is refused because of `this`: the two share a month, since both the start and the
/// end month of a section belong to it. A section that ends in the month before another
/// starts does not clash with it.
pub open spec fn clashes(new: SavingsPlanSection, this: SavingsPlanSection) -> bool {
    !ends_before(new, this) && !starts_after(new, this)
}

/// The month `month` of year `year` belongs to the section: it lies neither before its start
/// month nor after its end month.
pub open spec fn has_month(s: SavingsPlanSection, year: u16, month: u8) -> bool {
    !month_before(year, month, s.start_year, s.start_month) && !month_before(
        s.end_year,
        s.end_month,
        year,
        month,
    )
}

/// Two sections clash exactly when some month belongs to both of them (for sections that do
/// not end before they start): one that ends in the month before the other starts does not.
pub proof fn law_clash_is_a_shared_month(new: SavingsPlanSection, this: SavingsPlanSection)
    requires
        !month_before(new.end_year, new.end_month, new.start_year, new.start_month),
        !month_before(this.end_year, this.end_month, this.start_year, this.start_month),
    ensures
        clashes(new, this) <==> exists|year: u16, month: u8|
            #[trigger] has_month(new, year, month) && has_month(this, year, month),
{
    if clashes(new, this) {
        // the later of the two starts belongs to both
        if month_before(new.start_year, new.start_month, this.start_year, this.start_month) {
            assert(has_month(new, this.start_year, this.start_month));
            assert(has_month(this, this.start_year, this.start_month));
        } else {
            assert(has_month(new, new.start_year, new.start_month));
            assert(has_month(this, new.start_year, new.start_month));
        }
    }
}

/// No two sections of the plan (two copies of one section too) clash: they share no month.
pub open spec fn clash_free(plan: Multiset<SavingsPlanSection>) -> bool {
    forall|a: SavingsPlanSection, b: SavingsPlanSection|
        #![trigger plan.count(a), plan.count(b)]
        plan.count(a) > 0 && plan.count(b) > 0 && (a != b || plan.count(a) > 1) ==> !clashes(a, b)
}

/// A savings plan whose sections share no month stays so when `add_savings_plan_section`
/// accepts a section (`new`, which ends after it starts and clashes with none of the plan's
/// sections) and enters it.
pub proof fn law_accepted_section_keeps_plan_clash_free(
    plan: Seq<SavingsPlanSection>,
    new: SavingsPlanSection,
)
    requires
        clash_free(plan.to_multiset()),
        !has_no_range(new),
        forall|k: int| 0 <= k < plan.len() ==> !clashes(new, #[trigger] plan[k]),
    ensures
        clash_free(plan.to_multiset().insert(new)),
{
    broadcast use vstd::multiset::group_multiset_axioms;
    broadcast use vstd::seq_lib::group_to_multiset_ensures;

    let m = plan.to_multiset();
    let am = m.insert(new);
    // the plan does not hold `new` itself: a section that ends after it starts clashes with itself
    assert(m.count(new) == 0) by {
        if m.count(new) > 0 {
            assert(plan.contains(new));
            let k = choose|k: int| 0 <= k < plan.len() && plan[k] == new;
            assert(!clashes(new, plan[k]));
        }
    }
    assert forall|t: SavingsPlanSection| #[trigger] m.count(t) > 0 implies !clashes(new, t) && !clashes(
        t,
        new,
    ) by {
        assert(plan.contains(t));
        let k = choose|k: int| 0 <= k < plan.len() && plan[k] == t;
        assert(!clashes(new, plan[k]));
    }
    assert forall|a: SavingsPlanSection, b: SavingsPlanSection|
        #![trigger am.count(a), am.count(b)]
        am.count(a) > 0 && am.count(b) > 0 && (a != b || am.count(a) > 1) implies !clashes(a, b) by {
        if a == new && b == new {
            assert(am.count(new) == 1);
        } else if a == new {
            assert(m.count(b) > 0);
        } else if b == new {
            assert(m.count(a) > 0);
        } else {
            assert(m.count(a) > 0 && m.count(b) > 0);
        }
    }
}

/// Two plans with the same sections: no section of one clashes with `new` if and only if no
/// section of the other does.
proof fn lemma_clash_free_alike(a: Seq<SavingsPlanSection>, b: Seq<SavingsPlanSection>, new: SavingsPlanSection)
    requires
        a.to_multiset() == b.to_multiset(),
    ensures
        (forall|j: int| 0 <= j < a.len() ==> !clashes(new, #[trigger] a[j])) <==> (forall|k: int|
            0 <= k < b.len() ==> !clashes(new, #[trigger] b[k])),
{
    broadcast use vstd::seq_lib::group_to_multiset_ensures;

    if forall|j: int| 0 <= j < a.len() ==> !clashes(new, #[trigger] a[j]) {
        assert forall|k: int| 0 <= k < b.len() implies !clashes(new, #[trigger] b[k]) by {
            assert(b.contains(b[k]));
            assert(b.to_multiset().count(b[k]) > 0);
            assert(a.to_multiset().count(b[k]) > 0);
            assert(a.contains(b[k]));
            let j = choose|j: int| 0 <= j < a.len() && a[j] == b[k];
            assert(!clashes(new, a[j]));
        }
    }
    if forall|k: int| 0 <= k < b.len() ==> !clashes(new, #[trigger] b[k]) {
        assert forall|j: int| 0 <= j < a.len() implies !clashes(new, #[trigger] a[j]) by {
            assert(a.contains(a[j]));
            assert(a.to_multiset().count(a[j]) > 0);
            assert(b.to_multiset().count(a[j]) > 0);
            assert(b.contains(a[j]));
            let k = choose|k: int| 0 <= k < b.len() && b[k] == a[j];
            assert(!clashes(new, b[k]));
        }
    }
}

/// An investment of the first data file version: its savings plan and its history.
#[derive(Debug, Clone, PartialEq)]
pub struct DepotElement {
    pub variant: InvestmentVariant,
    // ordered by start after every modification
    savings_plan: Vec<SavingsPlanSection>,
    /// Key is YearNr
    pub history: HashMap<u16, InvestmentYear>,
}

impl DepotElement {
    pub closed spec fn spec_savings_plan(&self) -> Seq<SavingsPlanSection> {
        self.savings_plan@
    }

    pub closed spec fn spec_variant(&self) -> InvestmentVariant {
        self.variant
    }

    pub closed spec fn spec_history(&self) -> Map<u16, InvestmentYear> {
        self.history@
    }

    /// The savings plan is ordered by start.
    pub fn new(
        variant: InvestmentVariant,
        savings_plan: Vec<SavingsPlanSection>,
        history: HashMap<u16, InvestmentYear>,
    ) -> (e: Self)
        ensures
            e.spec_variant() == variant,
            ordered_by_start(e.spec_savings_plan()),
            e.spec_savings_plan().to_multiset() == savings_plan@.to_multiset(),
            e.spec_history() == history@,
    {
        let mut savings_plan = savings_plan;
        Self::_order_savings_plan(&mut savings_plan);
        Self { variant, savings_plan, history }
    }

    /// An element without savings plan and without history.
    pub fn default(variant: InvestmentVariant) -> (e: Self)
        ensures
            e.spec_variant() == variant,
            e.spec_savings_plan() == Seq::<SavingsPlanSection>::empty(),
            e.spec_history() == Map::<u16, InvestmentYear>::empty(),
    {
        Self { variant, savings_plan: Vec::new(), history: HashMap::new() }
    }

    /// Twelve months without values, numbered 1 to 12.
    pub fn default_months() -> (m: [crate::investing::inv_months::InvestmentMonth; 12])
        ensures
            crate::investing::inv_year::are_default_months(m@),
    {
        InvestmentYear::default_months()
    }

    pub fn savings_plan(&self) -> (r: &[SavingsPlanSection])
        ensures
            r@ == self.spec_savings_plan(),
    {
        self.savings_plan.as_slice()
    }

    /// Adds a section to the savings plan.
    ///
    /// - `Err(None)` if the section does not end after it starts (see `has_no_range`);
    ///   nothing changes.
    /// - `Err(Some(existing))` if the section clashes with an existing one (see `clashes`);
    ///   `existing` is the first such section in the order by start.
    /// - Otherwise `Ok(())`: the section is entered once, in front of the first existing section
    ///   that it ends before the start of. A plan whose sections shared no month stays so.
    ///
    /// In every case except `Err(None)` the plan is ordered by start afterwards.
    pub fn add_savings_plan_section(&mut self, new_s: &SavingsPlanSection) -> (r: Result<
        (),
        Option<SavingsPlanSection>,
    >)
        ensures
            final(self).spec_variant() == old(self).spec_variant(),
            final(self).spec_history() == old(self).spec_history(),
            r == Err::<(), Option<SavingsPlanSection>>(None) <==> has_no_range(*new_s),
            r == Err::<(), Option<SavingsPlanSection>>(None) ==> final(self).spec_savings_plan()
                == old(self).spec_savings_plan(),
            r != Err::<(), Option<SavingsPlanSection>>(None) ==> ordered_by_start(
                final(self).spec_savings_plan(),
            ),
            ordered_by_start(old(self).spec_savings_plan()) && r is Err ==> final(self).spec_savings_plan()
                == old(self).spec_savings_plan(),
            r is Ok <==> (!has_no_range(*new_s) && forall|k: int|
                0 <= k < old(self).spec_savings_plan().len() ==> !clashes(
                    *new_s,
                    #[trigger] old(self).spec_savings_plan()[k],
                )),
            r matches Err(Some(x)) ==> {
                &&& final(self).spec_savings_plan().to_multiset() == old(self).spec_savings_plan().to_multiset()
                &&& exists|i: int|
                    0 <= i < final(self).spec_savings_plan().len() && x == final(self).spec_savings_plan()[i]
                        && clashes(*new_s, x) && forall|j: int|
                        0 <= j < i ==> !clashes(
                            *new_s,
                            #[trigger] final(self).spec_savings_plan()[j],
                        )
            },
            r is Ok ==> final(self).spec_savings_plan().to_multiset() == old(
                self,
            ).spec_savings_plan().to_multiset().insert(*new_s),
            r is Ok && clash_free(old(self).spec_savings_plan().to_multiset()) ==> clash_free(
                final(self).spec_savings_plan().to_multiset(),
            ),
    {
        broadcast use vstd::seq_lib::group_to_multiset_ensures;
        broadcast use vstd::multiset::group_multiset_axioms;

        // since months and years are inclusive, both month values cant be the same if in the same year
        let start_after_end_year: bool = new_s.start_year > new_s.end_year;
        let overlayed_months: bool = (new_s.start_year == new_s.end_year) && (new_s.start_month
            >= new_s.end_month);
        if start_after_end_year || overlayed_months {
            return Err(None);  // start is not before end
        }
        let new = *new_s;

        // this entire function fails if the vec is not ordered
        Self::_order_savings_plan(&mut self.savings_plan);
        let ghost s = self.savings_plan@;
        let n = self.savings_plan.len();
        // walk to the first section that the new one ends before; refuse at the first clash
        let mut pos: usize = 0;
        while pos < n && !(new.end_year < self.savings_plan[pos].start_year || (new.end_year
            == self.savings_plan[pos].start_year && new.end_month < self.savings_plan[pos].start_month))
            invariant
                self.savings_plan@ == s,
                n == s.len(),
                pos <= n,
                new == *new_s,
                ordered_by_start(s),
                s.to_multiset() == old(self).savings_plan@.to_multiset(),
                ordered_by_start(old(self).savings_plan@) ==> s == old(self).savings_plan@,
                old(self).spec_savings_plan() == old(self).savings_plan@,
                self.spec_savings_plan() == self.savings_plan@,
                !has_no_range(new),
                self.variant == old(self).variant,
                self.history == old(self).history,
                forall|j: int| 0 <= j < pos ==> !ends_before(new, #[trigger] s[j]) && !clashes(new, s[j]),
            decreases n - pos,
        {
            let existing_s = self.savings_plan[pos];
            // "new" = new_s    "this" = existing_s
            let new_starts_after_this_ends: bool = new.start_year > existing_s.end_year || (
            new.start_year == existing_s.end_year && new.start_month > existing_s.end_month);
            if !new_starts_after_this_ends {
                proof {
                    assert(clashes(new, s[pos as int]));
                    vstd::seq_lib::to_multiset_contains(s, existing_s);
                    vstd::seq_lib::to_multiset_contains(old(self).savings_plan@, existing_s);
                    let k = choose|k: int|
                        0 <= k < old(self).savings_plan@.len() && old(self).savings_plan@[k] == existing_s;
                    assert(clashes(new, old(self).spec_savings_plan()[k]));
                }
                return Err(Some(existing_s));  // overlapping
            }
            pos += 1;
        }
        proof {
            // every section from `pos` on starts no earlier, so the new one ends before them all
            assert forall|j: int| 0 <= j < n implies !clashes(new, #[trigger] s[j]) by {
                if j >= pos {
                    assert(starts_no_later(s[pos as int], s[j]));
                }
            }
            lemma_clash_free_alike(old(self).savings_plan@, s, new);
            vstd::seq_lib::to_multiset_insert(s, pos as int, new);
        }
        self.savings_plan.insert(pos, new);
        Self::_order_savings_plan(&mut self.savings_plan);
        proof {
            if clash_free(old(self).spec_savings_plan().to_multiset()) {
                law_accepted_section_keeps_plan_clash_free(old(self).spec_savings_plan(), new);
            }
        }
        Ok(())
    }

    /// orders the given `savings_plan` ascending: by start year, then start month
    fn _order_savings_plan(savings_plan: &mut Vec<SavingsPlanSection>)
        ensures
            ordered_by_start(final(savings_plan)@),
            final(savings_plan)@.to_multiset() == old(savings_plan)@.to_multiset(),
            ordered_by_start(old(savings_plan)@) ==> final(savings_plan)@ == old(savings_plan)@,
    {
        broadcast use vstd::seq_lib::group_to_multiset_ensures;

        let mut sorted: Vec<SavingsPlanSection> = Vec::new();
        let n = savings_plan.len();
        let mut i: usize = 0;
        while i < n
            invariant
                n == savings_plan.len(),
                savings_plan@ == old(savings_plan)@,
                i <= n,
                ordered_by_start(sorted@),
                sorted@.to_multiset() == savings_plan@.take(i as int).to_multiset(),
                ordered_by_start(old(savings_plan)@) ==> sorted@ == savings_plan@.take(i as int),
            decreases n - i,
        {
            let x = savings_plan[i];
            let mut j: usize = 0;
            while j < sorted.len() && (sorted[j].start_year < x.start_year || (sorted[j].start_year
                == x.start_year && sorted[j].start_month <= x.start_month))
                invariant
                    j <= sorted.len(),
                    ordered_by_start(sorted@),
                    forall|k: int| 0 <= k < j ==> starts_no_later(#[trigger] sorted@[k], x),
                decreases sorted.len() - j,
            {
                j += 1;
            }
            proof {
                // a plan in order is walked to its end: `x` goes last
                if ordered_by_start(old(savings_plan)@) && j < sorted.len() {
                    assert(sorted@[j as int] == savings_plan@[j as int]);
                    assert(starts_no_later(sorted@[j as int], x));
                }
            }
            proof {
                assert forall|k: int| j <= k < sorted@.len() implies !starts_no_later(
                    #[trigger] sorted@[k],
                    x,
                ) by {
                    assert(starts_no_later(sorted@[j as int], sorted@[k]));
                }
            }
            let ghost before = sorted@;
            sorted.insert(j, x);
            proof {
                assert(savings_plan@.take(i + 1) == savings_plan@.take(i as int).push(x));
                vstd::seq_lib::to_multiset_insert(before, j as int, x);
                vstd::seq_lib::to_multiset_build(savings_plan@.take(i as int), x);
                assert forall|a: int, b: int| 0 <= a <= b < sorted@.len() implies starts_no_later(
                    sorted@[a],
                    sorted@[b],
                ) by {
                    if a < j && b > j {
                        assert(sorted@[b] == before[b - 1]);
                    }
                    if a > j {
                        assert(sorted@[a] == before[a - 1]);
                        assert(sorted@[b] == before[b - 1]);
                    }
                    if a == j && b > j {
                        assert(sorted@[b] == before[b - 1]);
                    }
                    if a < j && b == j {
                    }
                }
            }
            i += 1;
        }
        proof {
            assert(savings_plan@.take(n as int) == savings_plan@);
        }
        *savings_plan = sorted;
    }
}

} // verus!
