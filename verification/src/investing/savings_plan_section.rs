use crate::fast_date::FastDate;
use crate::investing::SavingsPlanInterval;
use vstd::prelude::*;

verus! {

/// One section of a savings plan: from `start` to `end` (both inclusive) the
/// `amount` is invested once per `interval`.
#[derive(Debug, Clone, Copy, PartialEq, Eq, Structural)]
pub struct SavingsPlanSection {
    /// inclusive!
    pub start: FastDate,
    /// inclusive!
    pub end: FastDate,
    /// The amount per interval, held as the bit pattern of an `f64` (`f64::to_bits`).
    /// The library only stores and hands back this value; it can stand for a negative amount.
    pub amount: u64,
    pub interval: SavingsPlanInterval,
}

/// `new` ends before `this` starts.
pub open spec fn lies_before(new: SavingsPlanSection, this: SavingsPlanSection) -> bool {
    new.end@ < this.start@
}

/// `new` and `this` share a day (both ends are inclusive) or one lies inside the other.
pub open spec fn touches(new: SavingsPlanSection, this: SavingsPlanSection) -> bool {
    ||| new.end@ == this.start@
    ||| (new.start@ < this.end@ && new.end@ > this.start@)
    ||| new.start@ == this.end@
}

/// `this` is the section that a new section `new` is refused for.
pub open spec fn conflicts(new: SavingsPlanSection, this: SavingsPlanSection) -> bool {
    !lies_before(new, this) && touches(new, this)
}

/// The sections are ordered by their start dates, ascending.
pub open spec fn starts_sorted(s: Seq<SavingsPlanSection>) -> bool {
    forall|i: int, j: int| 0 <= i <= j < s.len() ==> s[i].start@ <= s[j].start@
}

/// The end date of a section after an annual plan has been adjusted:
/// it lies at least one year after the start, on the start's month and day.
pub open spec fn adjusted_end(new: SavingsPlanSection) -> FastDate {
    if new.interval == SavingsPlanInterval::Annually {
        let e1 = if new.end.spec_year() == new.start.spec_year() {
            FastDate::spec_from(
                new.start.spec_year() + 1,
                new.start.spec_month(),
                new.start.spec_day(),
            )
        } else {
            new.end
        };
        if e1.spec_month() != new.start.spec_month() || e1.spec_day() != new.start.spec_day() {
            FastDate::spec_from(e1.spec_year(), new.start.spec_month(), new.start.spec_day())
        } else {
            e1
        }
    } else {
        new.end
    }
}

/// The section as it is entered into a savings plan.
pub open spec fn adjusted(new: SavingsPlanSection) -> SavingsPlanSection {
    SavingsPlanSection { end: adjusted_end(new), ..new }
}

/// The amount planned for `date`: that of the first section which contains the date and is
/// either monthly, or annual while the date is in December; `0` (the bits of `0.0`) if there is none.
pub open spec fn planned_amount(plan: Seq<SavingsPlanSection>, date: FastDate) -> u64
    decreases plan.len(),
{
    if plan.len() == 0 {
        0
    } else {
        let s = plan[0];
        if s.start@ <= date@ && date@ <= s.end@ && (s.interval == SavingsPlanInterval::Monthly
            || date.spec_month() == 12) {
            s.amount
        } else {
            planned_amount(plan.drop_first(), date)
        }
    }
}

/// The date lies in the section; both its start and its end belong to it.
pub open spec fn contains_date(s: SavingsPlanSection, date: FastDate) -> bool {
    s.start@ <= date@ && date@ <= s.end@
}

/// What is planned for a date is decided by the first section of the plan that contains it:
/// a monthly section pays its amount on every date it contains, whatever the month; an annual
/// section pays its amount in December, and in the other months it leaves the date to the
/// sections after it.
pub proof fn law_first_section_containing_the_date_decides(
    plan: Seq<SavingsPlanSection>,
    date: FastDate,
    i: int,
)
    requires
        0 <= i < plan.len(),
        contains_date(plan[i], date),
        forall|j: int| 0 <= j < i ==> !contains_date(#[trigger] plan[j], date),
    ensures
        plan[i].interval == SavingsPlanInterval::Monthly ==> planned_amount(plan, date)
            == plan[i].amount,
        plan[i].interval == SavingsPlanInterval::Annually && date.spec_month() == 12
            ==> planned_amount(plan, date) == plan[i].amount,
        plan[i].interval == SavingsPlanInterval::Annually && date.spec_month() != 12
            ==> planned_amount(plan, date) == planned_amount(plan.skip(i + 1), date),
    decreases i,
{
    if i > 0 {
        let rest = plan.drop_first();
        assert(!contains_date(plan[0], date));
        assert forall|j: int| 0 <= j < i - 1 implies !contains_date(#[trigger] rest[j], date) by {
            assert(rest[j] == plan[j + 1]);
        }
        assert(rest[i - 1] == plan[i]);
        law_first_section_containing_the_date_decides(rest, date, i - 1);
        assert(rest.skip(i) =~= plan.skip(i + 1));
    } else {
        assert(plan.drop_first() =~= plan.skip(1));
    }
}

/// Nothing is planned for a date that no section of the plan contains.
pub proof fn law_no_section_no_amount(plan: Seq<SavingsPlanSection>, date: FastDate)
    requires
        forall|j: int| 0 <= j < plan.len() ==> !contains_date(#[trigger] plan[j], date),
    ensures
        planned_amount(plan, date) == 0,
    decreases plan.len(),
{
    if plan.len() > 0 {
        let rest = plan.drop_first();
        assert(!contains_date(plan[0], date));
        assert forall|j: int| 0 <= j < rest.len() implies !contains_date(#[trigger] rest[j], date) by {
            assert(rest[j] == plan[j + 1]);
        }
        law_no_section_no_amount(rest, date);
    }
}

/// An annual section is entered with its end on the month and day of its start: in its own end
/// year, or in the year after the start if it ended in the year it started. Its start, amount
/// and interval stay as they are.
pub proof fn law_annual_section_ends_on_its_start_day(new: SavingsPlanSection)
    requires
        new.interval == SavingsPlanInterval::Annually,
        1 <= new.start.spec_month() <= 12,
        1 <= new.start.spec_day() <= 31,
        new.end.spec_year() == new.start.spec_year() ==> new.start.spec_year() < 65535,
    ensures
        adjusted(new).end.spec_month() == new.start.spec_month(),
        adjusted(new).end.spec_day() == new.start.spec_day(),
        adjusted(new).end.spec_year() == if new.end.spec_year() == new.start.spec_year() {
            new.start.spec_year() + 1
        } else {
            new.end.spec_year()
        },
        adjusted(new).start == new.start,
        adjusted(new).amount == new.amount,
        adjusted(new).interval == new.interval,
{
    let y = new.start.spec_year();
    let m = new.start.spec_month();
    let d = new.start.spec_day();
    assert(0 <= y < 65536) by {
        assert(new.start@ as int / 65536 < 65536);
    }
    assert(0 <= new.end.spec_year() < 65536) by {
        assert(new.end@ as int / 65536 < 65536);
    }
    if new.end.spec_year() == y {
        crate::fast_date::lemma_spec_from(y + 1, m, d);
    } else {
        crate::fast_date::lemma_spec_from(new.end.spec_year(), m, d);
    }
}

/// A monthly section is entered as it is.
pub proof fn law_monthly_section_is_entered_as_it_is(new: SavingsPlanSection)
    requires
        new.interval == SavingsPlanInterval::Monthly,
    ensures
        adjusted(new) == new,
{
}

} // verus!
