use crate::fast_date::lemma_fields_make_up_value;
use crate::fast_date::FastDate;
use crate::investing::inv_variant::InvestmentVariant;
use crate::investing::depot_entry_table::{cell_set, InvestmentMonthFields};
use crate::investing::inv_year::InvestmentYear;
use crate::investing::savings_plan_section::SavingsPlanSection;
use crate::investing::savings_plan_section::{adjusted, adjusted_end, conflicts, lies_before, planned_amount, starts_sorted, touches};
use crate::investing::SavingsPlanInterval;
use crate::current_date::CurrentDate;
use fxhash::FxHasher;
use std::collections::BTreeMap;
use std::collections::HashMap;
use std::collections::hash_map::Entry;
use std::hash::Hasher;
use vstd::multiset::Multiset;
use vstd::prelude::*;
use vstd::std_specs::iter::IteratorSpec;

verus! {

/// `fxhash::FxHasher::default()`, `Hasher::write(bytes)`, `Hasher::finish()`: the FxHash of the
/// bytes. Nothing is claimed of the result: FxHash reads the bytes in words of the target's
/// pointer width and in its byte order, so the value differs from one machine to another.
#[verifier::external_body]
fn fx_hash_bytes(bytes: &[u8]) -> u64 {
    let mut hasher = FxHasher::default();
    hasher.write(bytes);
    hasher.finish()
}

/// The smallest year of a history, if it has one.
fn first_year(history: &BTreeMap<u16, InvestmentYear>) -> (r: Option<u16>)
    ensures
        match r {
            Some(y) => history@.contains_key(y) && forall|z: u16|
                #[trigger] history@.contains_key(z) ==> y <= z,
            None => history@.dom().is_empty(),
        },
{
    let ghost keys = history.keys().remaining();
    let ghost mut seen: int = 0;
    let mut best: Option<u16> = None;
    for y in it: history.keys()
        invariant
            it.seq() == keys,
            seen == it.index(),
            match best {
                None => it.index() == 0,
                Some(b) => (exists|i: int| 0 <= i < it.index() && *keys[i] == b) && forall|i: int|
                    0 <= i < it.index() ==> b <= *#[trigger] keys[i],
            },
    {
        best = match best {
            None => Some(*y),
            Some(b) => if *y < b {
                Some(*y)
            } else {
                Some(b)
            },
        };
        proof {
            seen = seen + 1;
        }
    }
    proof {
        assert(seen == keys.len());
        assert(keys.unref().to_set() == history@.dom());
        match best {
            Some(b) => {
                let i = choose|i: int| 0 <= i < seen && *keys[i] == b;
                assert(keys.unref()[i] == b);
                assert(keys.unref().to_set().contains(b));
                assert forall|z: u16| #[trigger] history@.contains_key(z) implies b <= z by {
                    assert(keys.unref().to_set().contains(z));
                    let j = choose|j: int| 0 <= j < keys.len() && keys.unref()[j] == z;
                    assert(*keys[j] == z);
                }
            },
            None => {
                assert(keys.unref().len() == 0);
                assert(keys.unref().to_set() =~= Set::<u16>::empty());
            },
        }
    }
    best
}

/// The largest year of a history, if it has one.
fn last_year(history: &BTreeMap<u16, InvestmentYear>) -> (r: Option<u16>)
    ensures
        match r {
            Some(y) => history@.contains_key(y) && forall|z: u16|
                #[trigger] history@.contains_key(z) ==> z <= y,
            None => history@.dom().is_empty(),
        },
{
    let ghost keys = history.keys().remaining();
    let ghost mut seen: int = 0;
    let mut best: Option<u16> = None;
    for y in it: history.keys()
        invariant
            it.seq() == keys,
            seen == it.index(),
            match best {
                None => it.index() == 0,
                Some(b) => (exists|i: int| 0 <= i < it.index() && *keys[i] == b) && forall|i: int|
                    0 <= i < it.index() ==> *#[trigger] keys[i] <= b,
            },
    {
        best = match best {
            None => Some(*y),
            Some(b) => if *y > b {
                Some(*y)
            } else {
                Some(b)
            },
        };
        proof {
            seen = seen + 1;
        }
    }
    proof {
        assert(seen == keys.len());
        assert(keys.unref().to_set() == history@.dom());
        match best {
            Some(b) => {
                let i = choose|i: int| 0 <= i < seen && *keys[i] == b;
                assert(keys.unref()[i] == b);
                assert(keys.unref().to_set().contains(b));
                assert forall|z: u16| #[trigger] history@.contains_key(z) implies z <= b by {
                    assert(keys.unref().to_set().contains(z));
                    let j = choose|j: int| 0 <= j < keys.len() && keys.unref()[j] == z;
                    assert(*keys[j] == z);
                }
            },
            None => {
                assert(keys.unref().len() == 0);
                assert(keys.unref().to_set() =~= Set::<u16>::empty());
            },
        }
    }
    best
}

/// `y` is the smallest year of the history.
pub open spec fn is_first_year(history: Map<u16, InvestmentYear>, y: u16) -> bool {
    history.contains_key(y) && forall|z: u16| #[trigger] history.contains_key(z) ==> y <= z
}

/// `y` is the largest year of the history.
pub open spec fn is_last_year(history: Map<u16, InvestmentYear>, y: u16) -> bool {
    history.contains_key(y) && forall|z: u16| #[trigger] history.contains_key(z) ==> z <= y
}

/// `new` has the name, the variant and the savings plan of `old`.
pub open spec fn same_but_history(old: DepotEntry, new: DepotEntry) -> bool {
    &&& new.spec_name() == old.spec_name()
    &&& new.spec_variant() == old.spec_variant()
    &&& new.spec_savings_plan() == old.spec_savings_plan()
}

/// Neither section shares a day with the other: one ends before the other starts.
pub open spec fn apart(a: SavingsPlanSection, b: SavingsPlanSection) -> bool {
    a.end@ < b.start@ || b.end@ < a.start@
}

/// Any two sections of the plan (two copies of one section too) are apart.
pub open spec fn sections_apart(plan: Multiset<SavingsPlanSection>) -> bool {
    forall|a: SavingsPlanSection, b: SavingsPlanSection|
        #![trigger plan.count(a), plan.count(b)]
        plan.count(a) > 0 && plan.count(b) > 0 && (a != b || plan.count(a) > 1) ==> apart(a, b)
}

/// A savings plan whose sections are apart stays so when `add_savings_plan_section` accepts
/// a section (`n`, as adjusted, which ends after it starts and conflicts with none of the
/// plan's sections) and enters it.
pub proof fn law_accepted_section_keeps_plan_apart(plan: Seq<SavingsPlanSection>, n: SavingsPlanSection)
    requires
        sections_apart(plan.to_multiset()),
        n.start@ < n.end@,
        forall|k: int| 0 <= k < plan.len() ==> !conflicts(n, #[trigger] plan[k]),
    ensures
        sections_apart(plan.to_multiset().insert(n)),
{
    broadcast use vstd::multiset::group_multiset_axioms;
    broadcast use vstd::seq_lib::group_to_multiset_ensures;

    let m = plan.to_multiset();
    let am = m.insert(n);
    // the plan does not hold `n` itself: it would conflict with it
    assert(m.count(n) == 0) by {
        if m.count(n) > 0 {
            assert(plan.contains(n));
            let k = choose|k: int| 0 <= k < plan.len() && plan[k] == n;
            assert(!conflicts(n, plan[k]));
        }
    }
    // `n` is apart from every section of the plan
    assert forall|t: SavingsPlanSection| #[trigger] m.count(t) > 0 implies apart(n, t) && apart(t, n) by {
        assert(plan.contains(t));
        let k = choose|k: int| 0 <= k < plan.len() && plan[k] == t;
        assert(!conflicts(n, plan[k]));
    }
    assert forall|a: SavingsPlanSection, b: SavingsPlanSection|
        #![trigger am.count(a), am.count(b)]
        am.count(a) > 0 && am.count(b) > 0 && (a != b || am.count(a) > 1) implies apart(a, b) by {
        if a == n && b == n {
            assert(am.count(n) == 1);
        } else if a == n {
            assert(m.count(b) > 0);
        } else if b == n {
            assert(m.count(a) > 0);
        } else {
            assert(m.count(a) > 0 && m.count(b) > 0);
        }
    }
}

/// A section that ends after it starts conflicts with a section that does not end before it
/// starts exactly when the two are not apart, that is, when they share a day: so
/// `DepotEntry::add_savings_plan_section` refuses a section for an overlap, and for nothing else.
pub proof fn law_conflict_is_overlap(new: SavingsPlanSection, this: SavingsPlanSection)
    requires
        new.start@ < new.end@,
        this.start@ <= this.end@,
    ensures
        conflicts(new, this) <==> !apart(new, this),
{
}

/// Some entry of the depot holds the year `y`.
pub open spec fn year_in_depot(entries: Map<u64, DepotEntry>, y: u16) -> bool {
    exists|k: u64| entries.contains_key(k) && #[trigger] entries[k].spec_history().contains_key(y)
}

/// No entry of the depot holds a year before `y`.
pub open spec fn no_year_before(entries: Map<u64, DepotEntry>, y: u16) -> bool {
    forall|k: u64, z: u16|
        entries.contains_key(k) && #[trigger] entries[k].spec_history().contains_key(z) ==> y <= z
}

/// The oldest year across all entries; `None` if no entry holds a year before 65535
/// (which is also the start value of the search).
pub open spec fn oldest_year_of(entries: Map<u64, DepotEntry>) -> Option<u16> {
    if exists|y: u16| y < u16::MAX && year_in_depot(entries, y) && no_year_before(entries, y) {
        Some(choose|y: u16| y < u16::MAX && year_in_depot(entries, y) && no_year_before(entries, y))
    } else {
        None
    }
}

/// The oldest year `y` of the depot can be counted from up to `current_month` of
/// `current_year`: it lies no later than the year after, and only in December of the
/// year before does it lie in the next year (the count is then zero).
pub open spec fn fits_current_date(y: u16, current_year: u16, current_month: u8) -> bool {
    &&& y <= current_year as int + 1
    &&& y == current_year as int + 1 ==> current_month == 12
}

/// What `Depot::get_oldest_year_and_total_month_count` gives when the clock reads
/// `current_month` of `current_year`: January of the oldest year, the current month
/// and the number of months from the one to the other (both included); `None` if no
/// entry holds a year, or if the oldest year lies after the current date.
pub open spec fn month_count_outcome(
    entries: Map<u64, DepotEntry>,
    current_year: u16,
    current_month: u8,
) -> Option<(FastDate, FastDate, usize)> {
    match oldest_year_of(entries) {
        None => None,
        Some(oldest_year) => if fits_current_date(oldest_year, current_year, current_month) {
            Some(
                (
                    FastDate::spec_from(oldest_year as int, 1, 1),
                    FastDate::spec_from(current_year as int, current_month as int, 1),
                    ((current_year + 1 - oldest_year) * 12 - (12 - current_month)) as usize,
                ),
            )
        } else {
            None
        },
    }
}

proof fn lemma_oldest_year_is_unique(entries: Map<u64, DepotEntry>, y: u16)
    requires
        y < u16::MAX,
        year_in_depot(entries, y),
        no_year_before(entries, y),
    ensures
        oldest_year_of(entries) == Some(y),
{
    let c = choose|c: u16| c < u16::MAX && year_in_depot(entries, c) && no_year_before(entries, c);
    let k = choose|k: u64| entries.contains_key(k) && #[trigger] entries[k].spec_history().contains_key(y);
    let kc = choose|k: u64| entries.contains_key(k) && #[trigger] entries[k].spec_history().contains_key(c);
    assert(entries[k].spec_history().contains_key(y));
    assert(entries[kc].spec_history().contains_key(c));
}

proof fn lemma_no_oldest_year(entries: Map<u64, DepotEntry>)
    requires
        no_year_before(entries, u16::MAX),
    ensures
        oldest_year_of(entries) is None,
{
    assert forall|y: u16| y < u16::MAX && year_in_depot(entries, y) implies !no_year_before(
        entries,
        y,
    ) by {
        let k = choose|k: u64| entries.contains_key(k) && #[trigger] entries[k].spec_history().contains_key(y);
        assert(entries[k].spec_history().contains_key(y));
    }
}

/// Every year that some entry of the depot holds.
pub open spec fn depot_years(entries: Map<u64, DepotEntry>) -> Set<u16> {
    Set::new(|y: u16| year_in_depot(entries, y))
}

/// `new` is `old` with its history filled with every year from `from` to `to` and every
/// year of `years`.
pub open spec fn filled_entry(
    old: DepotEntry,
    new: DepotEntry,
    from: u16,
    to: u16,
    years: Set<u16>,
) -> bool {
    &&& new.spec_name() == old.spec_name()
    &&& new.spec_variant() == old.spec_variant()
    &&& new.spec_savings_plan() == old.spec_savings_plan()
    &&& history_filled(old.spec_history(), new.spec_history(), from, to, years)
}

/// Every entry of `new` is the same entry of `old` with its history filled with every year
/// from the oldest year of `old` (or `current_year`, if `old` holds no year) up to
/// `current_year`, and with every year that some entry of `old` holds.
pub open spec fn uniform_until(
    old: Map<u64, DepotEntry>,
    new: Map<u64, DepotEntry>,
    current_year: u16,
) -> bool {
    let from = match oldest_year_of(old) {
        Some(y) => y,
        None => current_year,
    };
    &&& new.dom() == old.dom()
    &&& forall|k: u64| #[trigger]
        old.contains_key(k) ==> filled_entry(old[k], new[k], from, current_year, depot_years(old))
}

/// The history holds, besides the years it held, every year from `from` to `to` and every
/// year of `years`; the years that were added hold no values.
pub open spec fn history_filled(
    old: Map<u16, InvestmentYear>,
    new: Map<u16, InvestmentYear>,
    from: u16,
    to: u16,
    years: Set<u16>,
) -> bool {
    &&& forall|y: u16| #[trigger]
        new.contains_key(y) <==> (old.contains_key(y) || (from <= y <= to) || years.contains(y))
    &&& forall|y: u16| #[trigger] old.contains_key(y) ==> new[y] == old[y]
    &&& forall|y: u16|
        !old.contains_key(y) && ((from <= y <= to) || years.contains(y)) ==> #[trigger] new[y].is_default_for(y)
}

proof fn lemma_some_year_gives_oldest(entries: Map<u64, DepotEntry>, y: u16)
    requires
        y < u16::MAX,
        year_in_depot(entries, y),
    ensures
        oldest_year_of(entries) is Some,
    decreases y,
{
    if no_year_before(entries, y) {
        assert(y < u16::MAX && year_in_depot(entries, y) && no_year_before(entries, y));
    } else {
        let (k, z) = choose|k: u64, z: u16|
            entries.contains_key(k) && #[trigger] entries[k].spec_history().contains_key(z) && !(y
                <= z);
        assert(entries[k].spec_history().contains_key(z));
        lemma_some_year_gives_oldest(entries, z);
    }
}

/// After `Depot::ensure_uniform_histories_until(current_year)` all depot entries hold the same
/// years: every year from the oldest year of the depot (or `current_year`, if no entry held a
/// year) up to `current_year`, and every year that some entry held before.
pub proof fn law_histories_are_uniform(
    old: Map<u64, DepotEntry>,
    new: Map<u64, DepotEntry>,
    current_year: u16,
)
    requires
        uniform_until(old, new, current_year),
    ensures
        forall|k: u64, y: u16|
            new.contains_key(k) ==> (#[trigger] new[k].spec_history().contains_key(y) <==> ((match oldest_year_of(old) {
                Some(o) => o,
                None => current_year,
            }) <= y <= current_year || year_in_depot(old, y))),
        forall|a: u64, b: u64|
            #[trigger] new.contains_key(a) && #[trigger] new.contains_key(b) ==> new[a].spec_history().dom()
                == new[b].spec_history().dom(),
{
    let from = match oldest_year_of(old) {
        Some(o) => o,
        None => current_year,
    };
    assert forall|k: u64, y: u16| new.contains_key(k) implies (#[trigger] new[k].spec_history().contains_key(y) <==> (from <= y <= current_year || year_in_depot(old, y))) by {
        assert(old.contains_key(k));
        assert(filled_entry(old[k], new[k], from, current_year, depot_years(old)));
        if old[k].spec_history().contains_key(y) {
            assert(year_in_depot(old, y));
        }
    }
    assert forall|a: u64, b: u64|
        #[trigger] new.contains_key(a) && #[trigger] new.contains_key(b) implies new[a].spec_history().dom()
            == new[b].spec_history().dom() by {
        assert forall|y: u16| new[a].spec_history().dom().contains(y) == new[b].spec_history().dom().contains(y) by {
            assert(new[a].spec_history().contains_key(y) <==> (from <= y <= current_year || year_in_depot(old, y)));
            assert(new[b].spec_history().contains_key(y) <==> (from <= y <= current_year || year_in_depot(old, y)));
        }
        assert(new[a].spec_history().dom() =~= new[b].spec_history().dom());
    }
}

/// Adds every missing year from `from` to `to` to the history.
fn fill_years(history: &mut BTreeMap<u16, InvestmentYear>, from: u16, to: u16)
    ensures
        history_filled(old(history)@, final(history)@, from, to, Set::empty()),
{
    if to < from {
        return ;
    }
    let mut year = from;
    while year < to
        invariant
            from <= year <= to,
            forall|y: u16|
                #[trigger] history@.contains_key(y) <==> (old(history)@.contains_key(y) || (from
                    <= y < year)),
            forall|y: u16| #[trigger] old(history)@.contains_key(y) ==> history@[y] == old(history)@[y],
            forall|y: u16|
                !old(history)@.contains_key(y) && from <= y < year ==> #[trigger] history@[y].is_default_for(y),
        decreases to - year,
    {
        if history.contains_key(&year) == false {
            history.insert(year, InvestmentYear::default(year));
        }
        year += 1;
    }
    // the last year, `to` itself
    if history.contains_key(&to) == false {
        history.insert(to, InvestmentYear::default(to));
    }
}

proof fn lemma_take_one_more<A>(s: Seq<A>, i: int)
    requires
        0 <= i < s.len(),
    ensures
        forall|y: A| #[trigger] s.take(i + 1).contains(y) <==> (s.take(i).contains(y) || y == s[i]),
{
    assert(s.take(i + 1) =~= s.take(i).push(s[i]));
    assert forall|y: A| #[trigger] s.take(i + 1).contains(y) <==> (s.take(i).contains(y) || y == s[i]) by {
        lemma_push_contains(s.take(i), s[i]);
    }
}

proof fn lemma_push_contains<A>(s: Seq<A>, x: A)
    ensures
        forall|y: A| #[trigger] s.push(x).contains(y) <==> (s.contains(y) || y == x),
{
    assert forall|y: A| #[trigger] s.push(x).contains(y) <==> (s.contains(y) || y == x) by {
        if s.push(x).contains(y) {
            let j = choose|j: int| 0 <= j < s.push(x).len() && s.push(x)[j] == y;
            if j < s.len() {
                assert(s[j] == y);
            }
        }
        if s.contains(y) {
            let j = choose|j: int| 0 <= j < s.len() && s[j] == y;
            assert(s.push(x)[j] == y);
        }
        if y == x {
            assert(s.push(x)[s.len() as int] == y);
        }
    }
}

/// Adds every missing year of `years` to the history.
fn add_years(history: &mut BTreeMap<u16, InvestmentYear>, years: &Vec<u16>)
    ensures
        forall|y: u16| #[trigger]
            final(history)@.contains_key(y) <==> (old(history)@.contains_key(y) || years@.contains(y)),
        forall|y: u16| #[trigger] old(history)@.contains_key(y) ==> final(history)@[y] == old(history)@[y],
        forall|y: u16|
            !old(history)@.contains_key(y) && years@.contains(y) ==> #[trigger] final(history)@[y].is_default_for(y),
{
    let mut i: usize = 0;
    while i < years.len()
        invariant
            i <= years@.len(),
            forall|y: u16| #[trigger]
                history@.contains_key(y) <==> (old(history)@.contains_key(y) || years@.take(i as int).contains(y)),
            forall|y: u16| #[trigger] old(history)@.contains_key(y) ==> history@[y] == old(history)@[y],
            forall|y: u16|
                !old(history)@.contains_key(y) && years@.take(i as int).contains(y) ==> #[trigger] history@[y].is_default_for(y),
        decreases years@.len() - i,
    {
        let y = years[i];
        proof {
            lemma_take_one_more(years@, i as int);
        }
        if history.contains_key(&y) == false {
            history.insert(y, InvestmentYear::default(y));
        }
        i += 1;
    }
    proof {
        assert(years@.take(i as int) =~= years@);
    }
}

/// Appends the years of the history to `out`.
fn push_history_years(history: &BTreeMap<u16, InvestmentYear>, out: &mut Vec<u16>)
    ensures
        forall|y: u16| #[trigger]
            final(out)@.contains(y) <==> (old(out)@.contains(y) || history@.contains_key(y)),
{
    let ghost keys = history.keys().remaining();
    let ghost mut seen: int = 0;
    for y in it: history.keys()
        invariant
            it.seq() == keys,
            seen == it.index(),
            keys.unref().to_set() == history@.dom(),
            forall|z: u16| #[trigger]
                out@.contains(z) <==> (old(out)@.contains(z) || keys.unref().take(seen).contains(z)),
    {
        let ghost before = out@;
        out.push(*y);
        proof {
            assert(keys.unref()[seen] == *y);
            lemma_take_one_more(keys.unref(), seen);
            lemma_push_contains(before, *y);
            seen = seen + 1;
        }
    }
    proof {
        assert(keys.unref().take(seen) =~= keys.unref());
        assert forall|z: u16| keys.unref().contains(z) <==> history@.contains_key(z) by {
            if keys.unref().contains(z) {
                assert(keys.unref().to_set().contains(z));
            }
            if history@.contains_key(z) {
                assert(keys.unref().to_set().contains(z));
            }
        }
    }
}

/// An entry added under a key (`Depot::add_entry_at`) is what is found afterwards under that
/// key (`Depot::get_entry`); the entries under other keys stay as they were.
pub proof fn law_entry_found_after_add(
    entries: Map<u64, DepotEntry>,
    key: u64,
    entry: DepotEntry,
    other: u64,
)
    ensures
        entries.insert(key, entry).contains_key(key),
        entries.insert(key, entry)[key] == entry,
        other != key ==> entries.insert(key, entry).contains_key(other) == entries.contains_key(
            other,
        ) && entries.insert(key, entry).get(other) == entries.get(other),
{
}

/// All investments, keyed by the FxHash of their names.
#[derive(Debug, Clone, PartialEq)]
pub struct Depot {
    // This key has to be something that can be used in an `id=""` in html
    /// Key is the hash of the name of the `DepotEntry`
    pub entries: HashMap<u64, DepotEntry>,
}

impl Depot {
    pub fn new() -> (d: Self)
        ensures
            d.entries@ == Map::<u64, DepotEntry>::empty(),
    {
        Self { entries: HashMap::new() }
    }

    /// The entry stored under `key`.
    pub fn get_entry(&self, key: u64) -> (r: Option<&DepotEntry>)
        ensures
            match r {
                Some(e) => self.entries@.contains_key(key) && *e == self.entries@[key],
                None => !self.entries@.contains_key(key),
            },
    {
        self.entries.get(&key)
    }

    /// The entry stored under the key of `name` (see `Depot::name_to_key`).
    pub fn get_entry_from_str(&self, name: &str) -> (r: Option<&DepotEntry>)
        ensures
            exists|key: u64|
                match r {
                    Some(e) => #[trigger] self.entries@.contains_key(key) && *e == self.entries@[key],
                    None => !self.entries@.contains_key(key),
                },
    {
        let key = Self::name_to_key(name);
        let r = self.get_entry(key);
        assert(match r {
            Some(e) => self.entries@.contains_key(key) && *e == self.entries@[key],
            None => !self.entries@.contains_key(key),
        });
        r
    }

    /// The entry stored under `key`, to be changed in place.
    pub fn get_entry_mut(&mut self, key: u64) -> (r: Option<&mut DepotEntry>)
        ensures
            match r {
                Some(e) => {
                    &&& old(self).entries@.contains_key(key)
                    &&& *e == old(self).entries@[key]
                    &&& final(self).entries@ == old(self).entries@.insert(key, *final(e))
                },
                None => {
                    &&& !old(self).entries@.contains_key(key)
                    &&& final(self).entries@ == old(self).entries@
                },
            },
    {
        match self.entries.entry(key) {
            Entry::Occupied(occupied) => Some(occupied.into_mut()),
            Entry::Vacant(_) => None,
        }
    }

    /// The entry stored under the key of `name` (see `Depot::name_to_key`), to be changed in
    /// place.
    pub fn get_entry_mut_from_str(&mut self, name: &str) -> (r: Option<&mut DepotEntry>)
        ensures
            exists|key: u64|
                match r {
                    Some(e) => {
                        &&& #[trigger] old(self).entries@.contains_key(key)
                        &&& *e == old(self).entries@[key]
                        &&& final(self).entries@ == old(self).entries@.insert(key, *final(e))
                    },
                    None => {
                        &&& !old(self).entries@.contains_key(key)
                        &&& final(self).entries@ == old(self).entries@
                    },
                },
    {
        let key = Self::name_to_key(name);
        self.get_entry_mut(key)
    }

    /// Stores `depot_entry` under `key`, in place of what was stored there.
    pub fn add_entry_at(&mut self, key: u64, depot_entry: DepotEntry)
        ensures
            final(self).entries@ == old(self).entries@.insert(key, depot_entry),
    {
        self.entries.insert(key, depot_entry);
    }

    /// Stores `depot_entry` under the key of `name` (see `Depot::name_to_key`), in place of
    /// what was stored there.
    pub fn add_entry(&mut self, name: &str, depot_entry: DepotEntry)
        ensures
            exists|key: u64| final(self).entries@ == #[trigger] old(self).entries@.insert(key, depot_entry),
    {
        let key = Self::name_to_key(name);
        self.add_entry_at(key, depot_entry);
    }

    /// The key of a name: the FxHash of its UTF-8 bytes. Nothing is stated of its value, which
    /// depends on the machine (see `fx_hash_bytes`).
    pub fn name_to_key(name: &str) -> u64 {
        fx_hash_bytes(name.as_bytes())
    }

    /// Ensures that all histories of all depot entries have the same years.
    /// Not the same content in each year, just that the same years exist.
    ///
    /// If some year did not exist in a `DepotEntry`, it is created with default values.
    ///
    /// If all DepotEntries have no history, the current year is added to all of them.
    ///
    /// The current year is read once from the system clock.
    pub fn ensure_uniform_histories(&mut self)
        ensures
            exists|current_year: u16|
                #[trigger] uniform_until(old(self).entries@, final(self).entries@, current_year),
    {
        let current_year = CurrentDate::current_year();
        self.ensure_uniform_histories_until(current_year);
        assert(uniform_until(old(self).entries@, self.entries@, current_year));
    }

    /// Every entry gets every year from the oldest year of the depot (or `current_year`,
    /// if no entry holds a year) up to `current_year`, and every year that another entry
    /// holds, with default values where it was missing. Afterwards all entries hold the
    /// same years.
    pub fn ensure_uniform_histories_until(&mut self, current_year: u16)
        ensures
            uniform_until(old(self).entries@, final(self).entries@, current_year),
    {
        let oldest_year: u16 = match self.get_oldest_year() {
            Some(y) => y,
            None => current_year,  // No entry has any history, so the current year will be added
        };
        let ghost start = self.entries@;
        // the keys of all entries
        let ghost all = self.entries.keys().remaining();
        let ghost mut seen: int = 0;
        let mut keys: Vec<u64> = Vec::new();
        for key in it: self.entries.keys()
            invariant
                it.seq() == all,
                seen == it.index(),
                keys@ == all.unref().take(seen),
        {
            keys.push(*key);
            proof {
                assert(all.unref().take(seen + 1) =~= all.unref().take(seen).push(*key));
                seen = seen + 1;
            }
        }
        proof {
            assert(seen == all.len());
            assert(keys@ =~= all.unref());
            assert(keys@.to_set() == start.dom());
            assert(keys@.no_duplicates()) by {
                assert forall|i: int, j: int|
                    0 <= i < keys@.len() && 0 <= j < keys@.len() && i != j implies keys@[i]
                    != keys@[j] by {
                    assert(all[i] != all[j]);
                }
            }
        }
        let n = keys.len();
        // every year that some entry holds
        let mut years: Vec<u16> = Vec::new();
        for idx in 0..n
            invariant
                n == keys@.len(),
                keys@.to_set() == start.dom(),
                self.entries@ == start,
                forall|y: u16| #[trigger]
                    years@.contains(y) <==> exists|j: int|
                        0 <= j < idx && #[trigger] start[keys@[j]].spec_history().contains_key(y),
        {
            let ghost before = years@;
            match self.entries.get(&keys[idx]) {
                Some(de) => {
                    push_history_years(&de.history, &mut years);
                    proof {
                        assert forall|y: u16| #[trigger]
                            years@.contains(y) <==> exists|j: int|
                                0 <= j < idx + 1 && #[trigger] start[keys@[j]].spec_history().contains_key(y) by {
                            if start[keys@[idx as int]].spec_history().contains_key(y) {
                                assert(0 <= idx < idx + 1);
                            }
                            if exists|j: int|
                                0 <= j < idx + 1 && #[trigger] start[keys@[j]].spec_history().contains_key(y) {
                                let j = choose|j: int|
                                    0 <= j < idx + 1 && #[trigger] start[keys@[j]].spec_history().contains_key(y);
                                if j < idx {
                                    assert(before.contains(y));
                                }
                            }
                        }
                    }
                },
                None => {
                    proof {
                        assert(keys@.to_set().contains(keys@[idx as int]));
                        assert(false);
                    }
                },
            }
        }
        proof {
            assert forall|y: u16| #[trigger] years@.contains(y) <==> depot_years(start).contains(y) by {
                if years@.contains(y) {
                    let j = choose|j: int|
                        0 <= j < n && #[trigger] start[keys@[j]].spec_history().contains_key(y);
                    assert(keys@.to_set().contains(keys@[j]));
                    assert(start.contains_key(keys@[j]) && start[keys@[j]].spec_history().contains_key(y));
                }
                if depot_years(start).contains(y) {
                    let k = choose|k: u64|
                        start.contains_key(k) && #[trigger] start[k].spec_history().contains_key(y);
                    assert(keys@.to_set().contains(k));
                    let j = choose|j: int| 0 <= j < keys@.len() && keys@[j] == k;
                    assert(start[keys@[j]].spec_history().contains_key(y));
                }
            }
        }
        for idx in 0..n
            invariant
                n == keys@.len(),
                keys@.to_set() == start.dom(),
                keys@.no_duplicates(),
                self.entries@.dom() == start.dom(),
                forall|y: u16| #[trigger] years@.contains(y) <==> depot_years(start).contains(y),
                forall|k: u64|
                    #[trigger] start.contains_key(k) ==> if keys@.take(idx as int).contains(k) {
                        filled_entry(start[k], self.entries@[k], oldest_year, current_year, depot_years(start))
                    } else {
                        self.entries@[k] == start[k]
                    },
        {
            let key = keys[idx];
            proof {
                assert(keys@.to_set().contains(key));
                assert(!keys@.take(idx as int).contains(key)) by {
                    if keys@.take(idx as int).contains(key) {
                        let j = choose|j: int| 0 <= j < idx && keys@.take(idx as int)[j] == key;
                        assert(keys@[j] == keys@[idx as int]);
                    }
                }
                assert(keys@.take(idx + 1) =~= keys@.take(idx as int).push(key));
            }
            let ghost before = self.entries@;
            match self.entries.remove(&key) {
                Some(mut de) => {
                    let ghost taken = de;
                    fill_years(&mut de.history, oldest_year, current_year);
                    let ghost ranged = de.history@;
                    add_years(&mut de.history, &years);
                    self.entries.insert(key, de);
                    proof {
                        assert(taken == start[key]);
                        let h0 = taken.history@;
                        let h2 = self.entries@[key].history@;
                        assert forall|y: u16|
                            !h0.contains_key(y) && ((oldest_year <= y <= current_year)
                                || depot_years(start).contains(y)) implies #[trigger] h2[y].is_default_for(y) by {
                            if ranged.contains_key(y) {
                                assert(oldest_year <= y <= current_year);
                            } else {
                                assert(years@.contains(y));
                            }
                        }
                        assert forall|y: u16| #[trigger] h2.contains_key(y) <==> (h0.contains_key(y)
                            || (oldest_year <= y <= current_year) || depot_years(start).contains(y)) by {
                            assert(years@.contains(y) <==> depot_years(start).contains(y));
                            assert(ranged.contains_key(y) <==> (h0.contains_key(y) || (oldest_year <= y <= current_year) || Set::<u16>::empty().contains(y)));
                        }
                        assert forall|y: u16| #[trigger] h0.contains_key(y) implies h2[y] == h0[y] by {
                            assert(ranged.contains_key(y));
                        }
                        assert(history_filled(h0, h2, oldest_year, current_year, depot_years(start)));
                        assert(filled_entry(start[key], self.entries@[key], oldest_year, current_year, depot_years(start)));
                    }
                },
                None => {},
            }
            proof {
                assert forall|k: u64| #[trigger] start.contains_key(k) implies (if keys@.take(
                    idx + 1,
                ).contains(k) {
                    filled_entry(start[k], self.entries@[k], oldest_year, current_year, depot_years(start))
                } else {
                    self.entries@[k] == start[k]
                }) by {
                    if k != key {
                        assert(self.entries@[k] == before[k]);
                        assert(keys@.take(idx + 1).contains(k) == keys@.take(idx as int).contains(k));
                    } else {
                        assert(keys@.take(idx + 1)[idx as int] == k);
                        assert(keys@.take(idx + 1).contains(k));
                    }
                }
            }
        }
        proof {
            assert(keys@.take(n as int) =~= keys@);
            assert forall|k: u64| #[trigger] start.contains_key(k) implies keys@.contains(k) by {
                assert(keys@.to_set().contains(k));
            }
        }
    }

    /// returns
    /// - start (oldest) date: `FastDate` with `Day = 1`
    /// - end date = current date: `FastDate` with `Day = 1`
    /// - month count: `usize`
    ///
    /// How many months, up until the current month, are in this depot?
    /// Includes the current month.
    /// If two entries have the same month, this does not count that month twice.
    ///
    /// The current year and month are read once from the system clock. `None` if no entry
    /// holds a year, and also if the oldest year lies after the current date.
    pub fn get_oldest_year_and_total_month_count(&self) -> (r: Option<(FastDate, FastDate, usize)>)
        ensures
            exists|current_year: u16, current_month: u8|
                1 <= current_month <= 12 && r == #[trigger] month_count_outcome(
                    self.entries@,
                    current_year,
                    current_month,
                ),
            oldest_year_of(self.entries@) is None ==> r is None,
            r matches Some((start, end, count)) ==> {
                &&& oldest_year_of(self.entries@) == Some(start.spec_year() as u16)
                &&& start == FastDate::spec_from(start.spec_year(), 1, 1)
                &&& end == FastDate::spec_from(end.spec_year(), end.spec_month(), 1)
                &&& 1 <= end.spec_month() <= 12
                &&& count == (end.spec_year() + 1 - start.spec_year()) * 12 - (12
                    - end.spec_month())
            },
    {
        let current_year = CurrentDate::current_year();
        let current_month = CurrentDate::current_month();
        let ghost outcome = month_count_outcome(self.entries@, current_year, current_month);
        match self.get_oldest_year() {
            None => {
                assert(outcome is None);
                None
            },
            Some(oldest_year) => {
                if oldest_year as u32 > current_year as u32 + 1 || (oldest_year as u32
                    == current_year as u32 + 1 && current_month != 12) {
                    assert(outcome is None);
                    return None;
                }
                let r = self.get_oldest_year_and_total_month_count_at(current_year, current_month);
                proof {
                    match r {
                        Some((start, end, count)) => {
                            crate::fast_date::lemma_spec_from(oldest_year as int, 1, 1);
                            crate::fast_date::lemma_spec_from(
                                current_year as int,
                                current_month as int,
                                1,
                            );
                        },
                        None => {},
                    }
                    assert(r == outcome);
                }
                r
            },
        }
    }

    /// As `get_oldest_year_and_total_month_count`, for the given current year and month.
    pub fn get_oldest_year_and_total_month_count_at(&self, current_year: u16, current_month: u8) -> (r:
        Option<(FastDate, FastDate, usize)>)
        requires
            1 <= current_month <= 12,
            oldest_year_of(self.entries@) matches Some(y) ==> (y <= current_year as int + 1 && (y
                == current_year as int + 1 ==> current_month == 12)),
        ensures
            match oldest_year_of(self.entries@) {
                None => r is None,
                Some(oldest_year) => r == Some(
                    (
                        FastDate::spec_from(oldest_year as int, 1, 1),
                        FastDate::spec_from(current_year as int, current_month as int, 1),
                        ((current_year + 1 - oldest_year) * 12 - (12 - current_month)) as usize,
                    ),
                ),
            },
    {
        let oldest_year = match self.get_oldest_year() {
            Some(y) => y as usize,
            None => return None,  // All depot entries have no history so there is no data
        };
        let current_year_nr = current_year as usize;

        // only until the current month
        let month_count = {
            // How many months would there be, if all years could have values for all 12 months already
            let x = (current_year_nr + 1 - oldest_year) * 12;

            // and than subtract the amount of months which have not yet passed in this year
            x - (12 - current_month as usize)
        };

        let start = FastDate::new_risky(oldest_year as u16, 1, 1);
        let end = FastDate::new_risky(current_year, current_month, 1);
        Some((start, end, month_count))
    }

    /// Across all DepotEntries, get the oldest year
    pub fn get_oldest_year(&self) -> (r: Option<u16>)
        ensures
            r == oldest_year_of(self.entries@),
            match r {
                Some(y) => y < u16::MAX && year_in_depot(self.entries@, y) && no_year_before(
                    self.entries@,
                    y,
                ),
                None => no_year_before(self.entries@, u16::MAX),
            },
    {
        let ghost keys = self.entries.keys().remaining();
        let ghost mut seen: int = 0;
        // the start value is the result when no entry holds any year
        let mut oldest_year: u16 = u16::MAX;
        for key in it: self.entries.keys()
            invariant
                it.seq() == keys,
                seen == it.index(),
                keys.unref().to_set() == self.entries@.dom(),
                forall|i: int, z: u16|
                    0 <= i < seen && #[trigger] self.entries@[*keys[i]].spec_history().contains_key(
                        z,
                    ) ==> oldest_year <= z,
                oldest_year < u16::MAX ==> exists|i: int|
                    0 <= i < seen && #[trigger] self.entries@[*keys[i]].spec_history().contains_key(
                        oldest_year,
                    ),
        {
            proof {
                assert(keys.unref()[seen] == *key);
                assert(keys.unref().to_set().contains(*key));
            }
            match self.entries.get(key) {
                Some(de) => match first_year(&de.history) {
                    Some(year) => {
                        proof {
                            assert(self.entries@[*keys[seen]].spec_history().contains_key(year));
                        }
                        if year < oldest_year {
                            oldest_year = year;
                        }
                    },
                    None => {},
                },
                None => {},
            }
            proof {
                seen = seen + 1;
            }
        }
        proof {
            assert(seen == keys.len());
            if oldest_year < u16::MAX {
                let i = choose|i: int|
                    0 <= i < seen && #[trigger] self.entries@[*keys[i]].spec_history().contains_key(
                        oldest_year,
                    );
                assert(keys.unref()[i] == *keys[i]);
                assert(self.entries@.contains_key(*keys[i]));
            }
            assert forall|k: u64, z: u16|
                self.entries@.contains_key(k) && #[trigger] self.entries@[k].spec_history().contains_key(
                    z,
                ) implies oldest_year <= z by {
                assert(keys.unref().to_set().contains(k));
                let j = choose|j: int| 0 <= j < keys.len() && keys.unref()[j] == k;
                assert(*keys[j] == k);
            }
        }
        if oldest_year == u16::MAX {
            proof {
                lemma_no_oldest_year(self.entries@);
            }
            return None;
        }
        proof {
            lemma_oldest_year_is_unique(self.entries@, oldest_year);
        }
        Some(oldest_year)
    }
}

/// One entry of the depot: an investment with its savings plan and its history.
#[derive(Debug, Clone, PartialEq)]
pub struct DepotEntry {
    // the name can not be changed, because the key in the depot is generated from it
    name: String,
    pub variant: InvestmentVariant,
    // ordered by start date after every modification
    savings_plan: Vec<SavingsPlanSection>,
    /// Key is the year number.
    ///
    /// It is NOT guaranteed that all `DepotEntry`'s have the same years.
    /// This can be ensured by running `Depot.ensure_uniform_histories()`.
    ///
    /// A year always has all 12 months.
    pub history: BTreeMap<u16, InvestmentYear>,
}

impl DepotEntry {
    pub closed spec fn spec_name(&self) -> Seq<char> {
        self.name@
    }

    pub closed spec fn spec_savings_plan(&self) -> Seq<SavingsPlanSection> {
        self.savings_plan@
    }

    pub closed spec fn spec_variant(&self) -> InvestmentVariant {
        self.variant
    }

    pub closed spec fn spec_history(&self) -> Map<u16, InvestmentYear> {
        self.history@
    }

    // ---------- Initialisation ----------
    /// The savings plan is ordered by start date.
    pub fn new(
        variant: InvestmentVariant,
        name: String,
        savings_plan: Vec<SavingsPlanSection>,
        history: BTreeMap<u16, InvestmentYear>,
    ) -> (e: Self)
        ensures
            e.spec_name() == name@,
            e.spec_variant() == variant,
            starts_sorted(e.spec_savings_plan()),
            e.spec_savings_plan().to_multiset() == savings_plan@.to_multiset(),
            e.spec_history() == history@,
    {
        let mut savings_plan = savings_plan;
        Self::_order_savings_plan(&mut savings_plan);
        Self { variant, name, savings_plan, history }
    }

    /// An entry without savings plan and without history.
    pub fn default(name: &str, variant: InvestmentVariant) -> (e: Self)
        ensures
            e.spec_name() == name@,
            e.spec_variant() == variant,
            e.spec_savings_plan() == Seq::<SavingsPlanSection>::empty(),
            e.spec_history() == Map::<u16, InvestmentYear>::empty(),
    {
        Self { variant, name: String::from_str(name), savings_plan: Vec::new(), history: BTreeMap::new() }
    }

    /// Same as `DepotEntry::default`, with the current year (read from the system clock)
    /// added to the history, holding no values.
    pub fn default_with_current_year(name: &str, variant: InvestmentVariant) -> (e: Self)
        ensures
            e.spec_name() == name@,
            e.spec_variant() == variant,
            e.spec_savings_plan() == Seq::<SavingsPlanSection>::empty(),
            exists|y: u16|
                e.spec_history().dom() == set![y] && #[trigger] e.spec_history()[y].is_default_for(y),
    {
        let mut this = Self::default(name, variant);
        let y = CurrentDate::current_year();
        this.history.insert(y, InvestmentYear::default(y));
        assert(this.history@.dom() =~= set![y]);
        assert(this.spec_history()[y].is_default_for(y));
        this
    }

    /// Whether the history holds the year `year_nr`.
    pub fn holds_year(&self, year_nr: u16) -> (r: bool)
        ensures
            r == self.spec_history().contains_key(year_nr),
    {
        self.history.contains_key(&year_nr)
    }

    /// Puts `year` into the history under `year_nr`, in place of what it held there.
    pub fn insert_year(&mut self, year_nr: u16, year: InvestmentYear)
        ensures
            same_but_history(*old(self), *final(self)),
            final(self).spec_history() == old(self).spec_history().insert(year_nr, year),
    {
        self.history.insert(year_nr, year);
    }

    /// Sets one value of one month (1-12) of the year `year`.
    /// `false`, and nothing changes, if the history has no such year.
    pub fn set_month_value(
        &mut self,
        year: u16,
        month: usize,
        field: InvestmentMonthFields,
        value: u64,
    ) -> (r: bool)
        requires
            1 <= month <= 12,
        ensures
            r == old(self).spec_history().contains_key(year),
            same_but_history(*old(self), *final(self)),
            r ==> final(self).spec_history() == old(self).spec_history().insert(
                year,
                final(self).spec_history()[year],
            ),
            r ==> cell_set(
                old(self).spec_history()[year],
                final(self).spec_history()[year],
                month as int,
                field,
                value,
            ),
            !r ==> *final(self) == *old(self),
    {
        match self.history.get(&year) {
            Some(y) => {
                let mut changed = *y;
                let mut m = changed.months[month - 1];
                match field {
                    InvestmentMonthFields::Amount => m.set_amount(value),
                    InvestmentMonthFields::PricePerUnit => m.set_price_per_unit(value),
                    InvestmentMonthFields::AdditionalTransactions => m.set_additional_transactions(
                        value,
                    ),
                }
                changed.months[month - 1] = m;
                self.history.insert(year, changed);
                true
            },
            None => false,
        }
    }

    /// Adds the year before the oldest year of the history, with no values.
    /// `false`, and nothing changes, if the history is empty.
    pub fn add_previous_year(&mut self) -> (r: bool)
        requires
    // the year before year 0 does not exist

            !old(self).spec_history().contains_key(0),
        ensures
            r == !old(self).spec_history().dom().is_empty(),
            same_but_history(*old(self), *final(self)),
            r ==> exists|y: u16|
                #[trigger] is_first_year(old(self).spec_history(), y) && final(self).spec_history()
                    == old(self).spec_history().insert(
                    (y - 1) as u16,
                    final(self).spec_history()[(y - 1) as u16],
                ) && final(self).spec_history()[(y - 1) as u16].is_default_for((y - 1) as u16),
            !r ==> *final(self) == *old(self),
    {
        match first_year(&self.history) {
            Some(oldest) => {
                proof {
                    assert(is_first_year(self.spec_history(), oldest));
                }
                self.history.insert(oldest - 1, InvestmentYear::default(oldest - 1));
                true
            },
            None => false,
        }
    }

    /// Makes sure the history holds the current year: if the history is empty, or its latest
    /// year is not `current_year`, `current_year` is put in with no values. (If the history
    /// holds a year after `current_year`, what it held for `current_year` is replaced.)
    pub fn ensure_current_year(&mut self, current_year: u16)
        ensures
            same_but_history(*old(self), *final(self)),
            is_last_year(old(self).spec_history(), current_year) ==> final(self).spec_history()
                == old(self).spec_history(),
            !is_last_year(old(self).spec_history(), current_year) ==> final(self).spec_history()
                == old(self).spec_history().insert(
                current_year,
                final(self).spec_history()[current_year],
            ) && final(self).spec_history()[current_year].is_default_for(current_year),
    {
        match last_year(&self.history) {
            Some(y) => {
                if y != current_year {
                    self.history.insert(current_year, InvestmentYear::default(current_year));
                }
            },
            None => {
                self.history.insert(current_year, InvestmentYear::default(current_year));
            },
        }
    }

    // ---------- Getters ----------
    pub fn name(&self) -> (r: &str)
        ensures
            r@ == self.spec_name(),
    {
        self.name.as_str()
    }

    pub fn savings_plan(&self) -> (r: &[SavingsPlanSection])
        ensures
            r@ == self.spec_savings_plan(),
    {
        self.savings_plan.as_slice()
    }

    // ---------- Remaining Methods ----------
    /// Adds a section to the savings plan.
    ///
    /// - `Err(None)` if the section does not end after it starts; nothing changes.
    /// - An annual section is first adjusted: if it ends in the year it starts, its end is moved
    ///   to the same day one year after the start; if it does not end on the month and day it
    ///   starts on, its end is moved to that month and day of its end year.
    /// - `Err(Some(existing))` if the section shares a day with an existing section or overlaps it
    ///   (without lying wholly before it); `existing` is the first such section by start date.
    /// - Otherwise `Ok(())`: the section is entered once, in front of the first existing section
    ///   that starts after it ends. A plan whose sections were apart stays so.
    ///
    /// In every case except `Err(None)` the plan is ordered by start date afterwards.
    #[verifier::rlimit(40)]
    pub fn add_savings_plan_section(&mut self, new: SavingsPlanSection) -> (r: Result<
        (),
        Option<SavingsPlanSection>,
    >)
        requires
    // an annual section is adjusted with dates built from the start's month and day

            new.interval == SavingsPlanInterval::Annually && new.start@ < new.end@ ==> {
                &&& 1 <= new.start.spec_month() <= 12
                &&& 1 <= new.start.spec_day() <= 31
                &&& new.end.spec_year() == new.start.spec_year() ==> new.start.spec_year() < 65535
            },
        ensures
            final(self).spec_name() == old(self).spec_name(),
            final(self).spec_variant() == old(self).spec_variant(),
            final(self).spec_history() == old(self).spec_history(),
            r == Err::<(), Option<SavingsPlanSection>>(None) <==> !(new.start@ < new.end@),
            r == Err::<(), Option<SavingsPlanSection>>(None) ==> final(self).spec_savings_plan()
                == old(self).spec_savings_plan(),
            r != Err::<(), Option<SavingsPlanSection>>(None) ==> starts_sorted(
                final(self).spec_savings_plan(),
            ),
            starts_sorted(old(self).spec_savings_plan()) && r is Err ==> final(self).spec_savings_plan()
                == old(self).spec_savings_plan(),
            r is Ok <==> (new.start@ < new.end@ && forall|k: int|
                0 <= k < old(self).spec_savings_plan().len() ==> !conflicts(
                    adjusted(new),
                    #[trigger] old(self).spec_savings_plan()[k],
                )),
            r matches Err(Some(x)) ==> {
                &&& final(self).spec_savings_plan().to_multiset() == old(self).spec_savings_plan().to_multiset()
                &&& exists|i: int|
                    0 <= i < final(self).spec_savings_plan().len() && x == final(self).spec_savings_plan()[i] && conflicts(adjusted(new), x) && forall|j: int|
                        0 <= j < i ==> !conflicts(
                            adjusted(new),
                            #[trigger] final(self).spec_savings_plan()[j],
                        )
            },
            r is Ok ==> final(self).spec_savings_plan().to_multiset() == old(
                self,
            ).spec_savings_plan().to_multiset().insert(adjusted(new)),
            r is Ok && sections_apart(old(self).spec_savings_plan().to_multiset()) ==> sections_apart(
                final(self).spec_savings_plan().to_multiset(),
            ),
    {
        // end is before start
        if new.end.raw() <= new.start.raw() {
            return Err(None);
        }
        let mut section = new;
        // if annually, check that end is one year ahead of start, if not, override end
        if section.interval == SavingsPlanInterval::Annually {
            if section.end.year() == section.start.year() {
                section.end = FastDate::new_risky(section.start.year() + 1, section.start.month(), section.start.day());
            }
            if (section.end.month() != section.start.month()) || (section.end.day() != section.start.day()) {
                section.end = FastDate::new_risky(section.end.year(), section.start.month(), section.start.day());
            }
        }
        proof {
            assert(section == adjusted(new));
            lemma_fields_make_up_value(new.start);
            lemma_fields_make_up_value(new.end);
            lemma_fields_make_up_value(section.end);
        }
        // since days are inclusive, the section has to end after it starts
        if section.start.raw() > section.end.raw() || section.end.raw() < section.start.raw() {
            return Err(None);
        }
        // the walk below relies on an ordered plan
        Self::_order_savings_plan(&mut self.savings_plan);
        let ghost s = self.savings_plan@;
        let n = self.savings_plan.len();
        // walk to the first section that the new one lies before; refuse at the first overlap
        let mut pos: usize = 0;
        while pos < n && !(section.end.raw() < self.savings_plan[pos].start.raw())
            invariant
                self.savings_plan@ == s,
                n == s.len(),
                pos <= n,
                starts_sorted(s),
                s.to_multiset() == old(self).spec_savings_plan().to_multiset(),
                starts_sorted(old(self).spec_savings_plan()) ==> s == old(self).spec_savings_plan(),
                section == adjusted(new),
                section.start@ < section.end@,
                new.start@ < new.end@,
                self.name@ == old(self).spec_name(),
                self.variant == old(self).spec_variant(),
                self.history@ == old(self).spec_history(),
                forall|j: int|
                    0 <= j < pos ==> !lies_before(section, #[trigger] s[j]) && !touches(section, s[j]),
            decreases n - pos,
        {
            let this = self.savings_plan[pos];
            if section.end.raw() == this.start.raw() || (section.start.raw() < this.end.raw()
                && section.end.raw() > this.start.raw()) || section.start.raw() == this.end.raw() {
                // overlapping: some dates are the same (not allowed, because inclusive),
                // or some dates are inside the other timeframe
                proof {
                    assert(conflicts(section, s[pos as int]));
                    assert(forall|j: int| 0 <= j < pos ==> !conflicts(section, #[trigger] s[j]));
                    vstd::seq_lib::to_multiset_contains(s, this);
                    vstd::seq_lib::to_multiset_contains(old(self).spec_savings_plan(), this);
                    assert(s.contains(this));
                    assert(old(self).spec_savings_plan().contains(this));
                    let k = choose|k: int|
                        0 <= k < old(self).spec_savings_plan().len() && old(self).spec_savings_plan()[k] == this;
                    assert(conflicts(adjusted(new), old(self).spec_savings_plan()[k]));
                    assert(Err::<(), Option<SavingsPlanSection>>(Some(this)) != Err::<
                        (),
                        Option<SavingsPlanSection>,
                    >(None));
                }
                return Err(Some(this));
            }
            pos += 1;
        }
        proof {
            broadcast use vstd::seq_lib::group_to_multiset_ensures;

            // every section from `pos` on starts no earlier, so the new one lies before them all
            assert forall|j: int| 0 <= j < n implies !conflicts(section, #[trigger] s[j]) by {
                if j >= pos {
                    assert(s[pos as int].start@ <= s[j].start@);
                }
            }
            assert forall|k: int| 0 <= k < old(self).spec_savings_plan().len() implies !conflicts(
                adjusted(new),
                #[trigger] old(self).spec_savings_plan()[k],
            ) by {
                assert(old(self).spec_savings_plan().to_multiset().count(old(self).spec_savings_plan()[k]) > 0);
                assert(s.contains(old(self).spec_savings_plan()[k]));
            }
            vstd::seq_lib::to_multiset_insert(s, pos as int, section);
        }
        self.savings_plan.insert(pos, section);
        Self::_order_savings_plan(&mut self.savings_plan);
        proof {
            if sections_apart(old(self).spec_savings_plan().to_multiset()) {
                law_accepted_section_keeps_plan_apart(old(self).spec_savings_plan(), section);
            }
        }
        Ok(())
    }

    /// - Checks if there exists any savings plan for the given date
    /// - If there is a plan, but this plan is annually, the savings plans amount will only be returned if the month is `12`
    /// - If the plan is monthly, the savings plans amount is returned
    /// - If there is no plan, `0` (the bits of `0.0`) is returned
    pub fn get_planned_transactions(&self, date: FastDate) -> (r: u64)
        ensures
            r == planned_amount(self.spec_savings_plan(), date),
    {
        let n = self.savings_plan.len();
        let mut i: usize = 0;
        proof {
            assert(self.savings_plan@.skip(0) =~= self.savings_plan@);
        }
        while i < n
            invariant
                n == self.savings_plan@.len(),
                i <= n,
                planned_amount(self.savings_plan@.skip(i as int), date) == planned_amount(
                    self.savings_plan@,
                    date,
                ),
            decreases n - i,
        {
            let section = self.savings_plan[i];
            proof {
                assert(self.savings_plan@.skip(i as int)[0] == section);
                assert(self.savings_plan@.skip(i as int).drop_first() =~= self.savings_plan@.skip(
                    i + 1,
                ));
            }
            // is the given date in this section?
            if (section.start.raw() <= date.raw()) && (date.raw() <= section.end.raw()) {
                if section.interval == SavingsPlanInterval::Monthly {
                    return section.amount;
                } else if (section.interval == SavingsPlanInterval::Annually) && (date.month()
                    == 12) {
                    return section.amount;
                }
            }
            i += 1;
        }
        proof {
            assert(self.savings_plan@.skip(n as int) =~= Seq::<SavingsPlanSection>::empty());
        }
        // no section that contains the date was found
        0
    }

    /// orders the given `savings_plan` ascending by start date
    fn _order_savings_plan(savings_plan: &mut Vec<SavingsPlanSection>)
        ensures
            starts_sorted(final(savings_plan)@),
            final(savings_plan)@.to_multiset() == old(savings_plan)@.to_multiset(),
            starts_sorted(old(savings_plan)@) ==> final(savings_plan)@ == old(savings_plan)@,
    {
        broadcast use vstd::seq_lib::group_to_multiset_ensures;

        let mut sorted: Vec<SavingsPlanSection> = Vec::new();
        let n = savings_plan.len();
        let mut i: usize = 0;
        while i < n
            invariant
                n == savings_plan.len(),
                savings_plan@ == old(savings_plan)@,
                i <= n,
                starts_sorted(sorted@),
                sorted@.to_multiset() == savings_plan@.take(i as int).to_multiset(),
                starts_sorted(old(savings_plan)@) ==> sorted@ == savings_plan@.take(i as int),
            decreases n - i,
        {
            let x = savings_plan[i];
            let mut j: usize = 0;
            while j < sorted.len() && sorted[j].start.raw() <= x.start.raw()
                invariant
                    j <= sorted.len(),
                    forall|k: int| 0 <= k < j ==> sorted@[k].start@ <= x.start@,
                decreases sorted.len() - j,
            {
                j += 1;
            }
            proof {
                // a plan in order is walked to its end: `x` goes last
                if starts_sorted(old(savings_plan)@) && j < sorted.len() {
                    assert(sorted@[j as int] == savings_plan@[j as int]);
                    assert(sorted@[j as int].start@ <= x.start@);
                }
            }
            proof {
                assert(forall|k: int| j <= k < sorted@.len() ==> sorted@[k].start@ > x.start@);
            }
            let ghost before = sorted@;
            sorted.insert(j, x);
            proof {
                assert(sorted@ == before.insert(j as int, x));
                assert(savings_plan@.take(i + 1) == savings_plan@.take(i as int).push(x));
                vstd::seq_lib::to_multiset_insert(before, j as int, x);
                vstd::seq_lib::to_multiset_build(savings_plan@.take(i as int), x);
                assert forall|a: int, b: int| 0 <= a <= b < sorted@.len() implies sorted@[a].start@
                    <= sorted@[b].start@ by {
                    if a < j && b > j {
                        assert(sorted@[b] == before[b - 1]);
                    }
                    if a > j {
                        assert(sorted@[a] == before[a - 1]);
                        assert(sorted@[b] == before[b - 1]);
                    }
                }
            }
            i += 1;
        }
        proof {
            assert(savings_plan@.take(n as int) == savings_plan@);
        }
        *savings_plan = sorted;
    }
}

} // verus!
