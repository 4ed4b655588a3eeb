use crate::accounting::accounting_month::{are_default_months, is_default_month, AccountingMonth};
use vstd::multiset::Multiset;
use vstd::prelude::*;

verus! {

/// The values of `s` that are greater than 0, in their order.
pub open spec fn positive(s: Seq<u64>) -> Seq<u64>
    decreases s.len(),
{
    if s.len() == 0 {
        Seq::empty()
    } else if s.last() > 0 {
        positive(s.drop_last()).push(s.last())
    } else {
        positive(s.drop_last())
    }
}

/// The values are in ascending order.
pub open spec fn ascending(s: Seq<u64>) -> bool {
    forall|i: int, j: int| 0 <= i <= j < s.len() ==> s[i] <= s[j]
}

/// The two values in the middle of `v`; the one in the middle twice if their count is odd.
/// The median of `v` is their mean.
pub open spec fn middle_pair(v: Seq<u64>) -> (u64, u64) {
    let half = (v.len() / 2) as int;
    if v.len() % 2 == 0 {
        (v[half - 1], v[half])
    } else {
        (v[half], v[half])
    }
}

/// `p` is the middle pair of the values of `s` that are greater than 0, in ascending order.
pub open spec fn is_median_pair(s: Seq<u64>, p: (u64, u64)) -> bool {
    exists|v: Seq<u64>|
        v.len() > 0 && ascending(v) && #[trigger] v.to_multiset() == positive(s).to_multiset() && p
            == middle_pair(v)
}

proof fn lemma_positive_values_are_positive(s: Seq<u64>)
    ensures
        forall|i: int| 0 <= i < positive(s).len() ==> #[trigger] positive(s)[i] > 0,
    decreases s.len(),
{
    if s.len() > 0 {
        lemma_positive_values_are_positive(s.drop_last());
        let before = positive(s.drop_last());
        if s.last() > 0 {
            assert forall|i: int| 0 <= i < positive(s).len() implies #[trigger] positive(s)[i] > 0 by {
                if i < before.len() {
                    assert(positive(s)[i] == before[i]);
                }
            }
        }
    }
}

/// The two middle values are values greater than 0, the first no greater than the second:
/// the median, their mean, lies between them.
pub proof fn law_median_pair_ordered(s: Seq<u64>, p: (u64, u64))
    requires
        is_median_pair(s, p),
    ensures
        0 < p.0 <= p.1,
{
    broadcast use vstd::seq_lib::group_to_multiset_ensures;

    let v = choose|v: Seq<u64>|
        v.len() > 0 && ascending(v) && #[trigger] v.to_multiset() == positive(s).to_multiset() && p
            == middle_pair(v);
    lemma_positive_values_are_positive(s);
    let half = (v.len() / 2) as int;
    let first = if v.len() % 2 == 0 {
        half - 1
    } else {
        half
    };
    assert(v.contains(v[first]));
    assert(v.to_multiset().count(v[first]) > 0);
    assert(positive(s).contains(v[first]));
}

/// The median is taken of the values greater than 0, each as often as it occurs; a 0 counts as
/// no data.
pub proof fn law_only_zeros_are_left_out(s: Seq<u64>, x: u64)
    ensures
        positive(s).to_multiset().count(x) == if x > 0 {
            s.to_multiset().count(x)
        } else {
            0
        },
    decreases s.len(),
{
    broadcast use vstd::seq_lib::group_to_multiset_ensures;
    broadcast use vstd::multiset::group_multiset_axioms;

    if s.len() > 0 {
        law_only_zeros_are_left_out(s.drop_last(), x);
        vstd::seq_lib::to_multiset_build(s.drop_last(), s.last());
        assert(s.drop_last().push(s.last()) =~= s);
        if s.last() > 0 {
            vstd::seq_lib::to_multiset_build(positive(s.drop_last()), s.last());
        }
    } else {
        assert(positive(s) =~= Seq::<u64>::empty());
    }
}

/// How many of the values are below `x`.
pub open spec fn count_below(m: Multiset<u64>, x: u64) -> nat {
    m.filter(|y: u64| y < x).len()
}

/// How many of the values are at most `x`.
pub open spec fn count_up_to(m: Multiset<u64>, x: u64) -> nat {
    m.filter(|y: u64| y <= x).len()
}

/// The medians are taken of all twelve months: month `k` gives its income, its expenses and
/// its income minus its expenses.
pub proof fn law_medians_read_every_month(months: Seq<AccountingMonth>, k: int)
    requires
        months.len() == 12,
        0 <= k < 12,
    ensures
        incomes(months).len() == 12 && incomes(months)[k] == months[k]@.1,
        expenses(months).len() == 12 && expenses(months)[k] == months[k]@.2,
        differences(months).len() == 12 && differences(months)[k] == months[k]@.1 - months[k]@.2,
{
}

/// Filtering the union of two multisets filters each of them.
proof fn lemma_filter_add<V>(a: Multiset<V>, b: Multiset<V>, f: spec_fn(V) -> bool)
    ensures
        a.add(b).filter(f).len() == a.filter(f).len() + b.filter(f).len(),
{
    broadcast use vstd::multiset::group_multiset_axioms;

    assert(a.add(b).filter(f) =~= a.filter(f).add(b.filter(f)));
}

/// Filtering keeps no more values than there are.
proof fn lemma_filter_len<V>(a: Multiset<V>, f: spec_fn(V) -> bool)
    ensures
        a.filter(f).len() <= a.len(),
{
    broadcast use vstd::multiset::group_multiset_axioms;

    let g = |v: V| !f(v);
    assert(a =~= a.filter(f).add(a.filter(g)));
}

/// Filtering keeps every value, if every value passes.
proof fn lemma_filter_all<V>(a: Multiset<V>, f: spec_fn(V) -> bool)
    requires
        forall|v: V| #[trigger] a.count(v) > 0 ==> f(v),
    ensures
        a.filter(f).len() == a.len(),
{
    broadcast use vstd::multiset::group_multiset_axioms;

    assert(a.filter(f) =~= a);
}

/// Filtering keeps no value, if no value passes.
proof fn lemma_filter_none<V>(a: Multiset<V>, f: spec_fn(V) -> bool)
    requires
        forall|v: V| #[trigger] a.count(v) > 0 ==> !f(v),
    ensures
        a.filter(f).len() == 0,
{
    broadcast use vstd::multiset::group_multiset_axioms;

    assert(a.filter(f) =~= Multiset::empty());
}

/// In ascending order, value number `k` (counted from 0) has at most `k` values below it and
/// more than `k` values at most as large as it.
proof fn lemma_rank_in_ascending(v: Seq<u64>, k: int)
    requires
        ascending(v),
        0 <= k < v.len(),
    ensures
        count_below(v.to_multiset(), v[k]) <= k < count_up_to(v.to_multiset(), v[k]),
{
    broadcast use vstd::seq_lib::group_to_multiset_ensures;

    let x = v[k];
    let below = |y: u64| y < x;
    let up_to = |y: u64| y <= x;
    // the values before `k` and the rest
    let a = v.take(k);
    let b = v.skip(k);
    assert(v =~= a + b);
    vstd::seq_lib::lemma_multiset_commutative(a, b);
    lemma_filter_add(a.to_multiset(), b.to_multiset(), below);
    lemma_filter_len(a.to_multiset(), below);
    assert forall|y: u64| #[trigger] b.to_multiset().count(y) > 0 implies !below(y) by {
        assert(b.contains(y));
        let j = choose|j: int| 0 <= j < b.len() && b[j] == y;
        assert(b[j] == v[k + j]);
    }
    lemma_filter_none(b.to_multiset(), below);
    // the values up to `k` and the rest
    let c = v.take(k + 1);
    let d = v.skip(k + 1);
    assert(v =~= c + d);
    vstd::seq_lib::lemma_multiset_commutative(c, d);
    lemma_filter_add(c.to_multiset(), d.to_multiset(), up_to);
    assert forall|y: u64| #[trigger] c.to_multiset().count(y) > 0 implies up_to(y) by {
        assert(c.contains(y));
        let j = choose|j: int| 0 <= j < c.len() && c[j] == y;
        assert(c[j] == v[j]);
    }
    lemma_filter_all(c.to_multiset(), up_to);
}

/// The middle pair of the incomes (or expenses) that are greater than 0 lies in the middle of
/// them: with `n` such values, at most `(n - 1) / 2` of them lie below the first of the pair
/// and more than that many are at most as large as it; at most `n / 2` lie below the second and
/// more than `n / 2` are at most as large as it. For an even `n` the two are the values on
/// either side of the middle of the ascending order; for an odd `n` both are the value in it.
pub proof fn law_median_pair_lies_in_the_middle(s: Seq<u64>, p: (u64, u64))
    requires
        is_median_pair(s, p),
    ensures
        ({
            let m = positive(s).to_multiset();
            &&& count_below(m, p.0) <= (m.len() - 1) / 2 < count_up_to(m, p.0)
            &&& count_below(m, p.1) <= m.len() / 2 < count_up_to(m, p.1)
        }),
{
    broadcast use vstd::seq_lib::group_to_multiset_ensures;

    let v = choose|v: Seq<u64>|
        v.len() > 0 && ascending(v) && #[trigger] v.to_multiset() == positive(s).to_multiset() && p
            == middle_pair(v);
    let n = v.len() as int;
    assert(v.to_multiset().len() == n);
    lemma_rank_in_ascending(v, (n - 1) / 2);
    lemma_rank_in_ascending(v, n / 2);
}

/// The incomes of the months, in cents.
pub open spec fn incomes(months: Seq<AccountingMonth>) -> Seq<u64> {
    Seq::new(12, |i: int| months[i]@.1)
}

/// The expenses of the months, in cents.
pub open spec fn expenses(months: Seq<AccountingMonth>) -> Seq<u64> {
    Seq::new(12, |i: int| months[i]@.2)
}

/// Income minus expenses of each month, in cents.
pub open spec fn differences(months: Seq<AccountingMonth>) -> Seq<i128> {
    Seq::new(12, |i: int| (months[i]@.1 - months[i]@.2) as i128)
}

/// The values of `s` that are not 0, in their order.
pub open spec fn nonzero(s: Seq<i128>) -> Seq<i128>
    decreases s.len(),
{
    if s.len() == 0 {
        Seq::empty()
    } else if s.last() != 0 {
        nonzero(s.drop_last()).push(s.last())
    } else {
        nonzero(s.drop_last())
    }
}

/// The values are in ascending order.
pub open spec fn ascending_signed(s: Seq<i128>) -> bool {
    forall|i: int, j: int| 0 <= i <= j < s.len() ==> s[i] <= s[j]
}

/// The two values in the middle of `v`; the one in the middle twice if their count is odd.
/// The median of `v` is their mean.
pub open spec fn middle_pair_signed(v: Seq<i128>) -> (i128, i128) {
    let half = (v.len() / 2) as int;
    if v.len() % 2 == 0 {
        (v[half - 1], v[half])
    } else {
        (v[half], v[half])
    }
}

/// `p` is the middle pair of the values of `s` that are not 0, in ascending order.
pub open spec fn is_signed_median_pair(s: Seq<i128>, p: (i128, i128)) -> bool {
    exists|v: Seq<i128>|
        v.len() > 0 && ascending_signed(v) && #[trigger] v.to_multiset() == nonzero(s).to_multiset()
            && p == middle_pair_signed(v)
}

proof fn lemma_nonzero_values_are_nonzero(s: Seq<i128>)
    ensures
        forall|i: int| 0 <= i < nonzero(s).len() ==> #[trigger] nonzero(s)[i] != 0,
    decreases s.len(),
{
    if s.len() > 0 {
        lemma_nonzero_values_are_nonzero(s.drop_last());
        let before = nonzero(s.drop_last());
        if s.last() != 0 {
            assert forall|i: int| 0 <= i < nonzero(s).len() implies #[trigger] nonzero(s)[i] != 0 by {
                if i < before.len() {
                    assert(nonzero(s)[i] == before[i]);
                }
            }
        }
    }
}

/// The two middle values of the values that are not 0 are themselves not 0, the first no
/// greater than the second: the median, their mean, lies between them.
pub proof fn law_signed_median_pair_ordered(s: Seq<i128>, p: (i128, i128))
    requires
        is_signed_median_pair(s, p),
    ensures
        p.0 <= p.1,
        p.0 != 0,
        p.1 != 0,
{
    broadcast use vstd::seq_lib::group_to_multiset_ensures;

    let v = choose|v: Seq<i128>|
        v.len() > 0 && ascending_signed(v) && #[trigger] v.to_multiset() == nonzero(s).to_multiset()
            && p == middle_pair_signed(v);
    lemma_nonzero_values_are_nonzero(s);
    let half = (v.len() / 2) as int;
    let first = if v.len() % 2 == 0 {
        half - 1
    } else {
        half
    };
    assert(v.contains(v[first]));
    assert(v.to_multiset().count(v[first]) > 0);
    assert(nonzero(s).contains(v[first]));
    assert(v.contains(v[half]));
    assert(v.to_multiset().count(v[half]) > 0);
    assert(nonzero(s).contains(v[half]));
}

/// The median of the differences is taken of the values that are not 0, each as often as it
/// occurs; only a 0 counts as no data, a negative difference counts.
pub proof fn law_only_zero_differences_are_left_out(s: Seq<i128>, x: i128)
    ensures
        nonzero(s).to_multiset().count(x) == if x != 0 {
            s.to_multiset().count(x)
        } else {
            0
        },
    decreases s.len(),
{
    broadcast use vstd::seq_lib::group_to_multiset_ensures;
    broadcast use vstd::multiset::group_multiset_axioms;

    if s.len() > 0 {
        law_only_zero_differences_are_left_out(s.drop_last(), x);
        vstd::seq_lib::to_multiset_build(s.drop_last(), s.last());
        assert(s.drop_last().push(s.last()) =~= s);
        if s.last() != 0 {
            vstd::seq_lib::to_multiset_build(nonzero(s.drop_last()), s.last());
        }
    } else {
        assert(nonzero(s) =~= Seq::<i128>::empty());
    }
}

/// How many of the values are below `x`.
pub open spec fn count_below_signed(m: Multiset<i128>, x: i128) -> nat {
    m.filter(|y: i128| y < x).len()
}

/// How many of the values are at most `x`.
pub open spec fn count_up_to_signed(m: Multiset<i128>, x: i128) -> nat {
    m.filter(|y: i128| y <= x).len()
}

/// In ascending order, value number `k` (counted from 0) has at most `k` values below it and
/// more than `k` values at most as large as it.
proof fn lemma_rank_in_ascending_signed(v: Seq<i128>, k: int)
    requires
        ascending_signed(v),
        0 <= k < v.len(),
    ensures
        count_below_signed(v.to_multiset(), v[k]) <= k < count_up_to_signed(v.to_multiset(), v[k]),
{
    broadcast use vstd::seq_lib::group_to_multiset_ensures;

    let x = v[k];
    let below = |y: i128| y < x;
    let up_to = |y: i128| y <= x;
    let a = v.take(k);
    let b = v.skip(k);
    assert(v =~= a + b);
    vstd::seq_lib::lemma_multiset_commutative(a, b);
    lemma_filter_add(a.to_multiset(), b.to_multiset(), below);
    lemma_filter_len(a.to_multiset(), below);
    assert forall|y: i128| #[trigger] b.to_multiset().count(y) > 0 implies !below(y) by {
        assert(b.contains(y));
        let j = choose|j: int| 0 <= j < b.len() && b[j] == y;
        assert(b[j] == v[k + j]);
    }
    lemma_filter_none(b.to_multiset(), below);
    let c = v.take(k + 1);
    let d = v.skip(k + 1);
    assert(v =~= c + d);
    vstd::seq_lib::lemma_multiset_commutative(c, d);
    lemma_filter_add(c.to_multiset(), d.to_multiset(), up_to);
    assert forall|y: i128| #[trigger] c.to_multiset().count(y) > 0 implies up_to(y) by {
        assert(c.contains(y));
        let j = choose|j: int| 0 <= j < c.len() && c[j] == y;
        assert(c[j] == v[j]);
    }
    lemma_filter_all(c.to_multiset(), up_to);
}

/// The middle pair of the monthly differences that are not 0 lies in the middle of them: with
/// `n` such values, at most `(n - 1) / 2` of them lie below the first of the pair and more than
/// that many are at most as large as it; at most `n / 2` lie below the second and more than
/// `n / 2` are at most as large as it.
pub proof fn law_signed_median_pair_lies_in_the_middle(s: Seq<i128>, p: (i128, i128))
    requires
        is_signed_median_pair(s, p),
    ensures
        ({
            let m = nonzero(s).to_multiset();
            &&& count_below_signed(m, p.0) <= (m.len() - 1) / 2 < count_up_to_signed(m, p.0)
            &&& count_below_signed(m, p.1) <= m.len() / 2 < count_up_to_signed(m, p.1)
        }),
{
    broadcast use vstd::seq_lib::group_to_multiset_ensures;

    let v = choose|v: Seq<i128>|
        v.len() > 0 && ascending_signed(v) && #[trigger] v.to_multiset() == nonzero(s).to_multiset()
            && p == middle_pair_signed(v);
    let n = v.len() as int;
    assert(v.to_multiset().len() == n);
    lemma_rank_in_ascending_signed(v, (n - 1) / 2);
    lemma_rank_in_ascending_signed(v, n / 2);
}

/// The values of `values` that are not 0.
fn nonzero_values(values: &Vec<i128>) -> (r: Vec<i128>)
    ensures
        r@ == nonzero(values@),
{
    let mut r: Vec<i128> = Vec::new();
    let n = values.len();
    let mut i: usize = 0;
    while i < n
        invariant
            n == values@.len(),
            i <= n,
            r@ == nonzero(values@.take(i as int)),
        decreases n - i,
    {
        proof {
            assert(values@.take(i + 1).drop_last() =~= values@.take(i as int));
        }
        if values[i] != 0 {
            r.push(values[i]);
        }
        i += 1;
    }
    proof {
        assert(values@.take(n as int) =~= values@);
    }
    r
}

/// Orders the values ascending.
fn sort_ascending_signed(values: &mut Vec<i128>)
    ensures
        ascending_signed(final(values)@),
        final(values)@.to_multiset() == old(values)@.to_multiset(),
{
    broadcast use vstd::seq_lib::group_to_multiset_ensures;

    let mut sorted: Vec<i128> = Vec::new();
    let n = values.len();
    let mut i: usize = 0;
    while i < n
        invariant
            n == values.len(),
            values@ == old(values)@,
            i <= n,
            ascending_signed(sorted@),
            sorted@.to_multiset() == values@.take(i as int).to_multiset(),
        decreases n - i,
    {
        let x = values[i];
        let mut j: usize = 0;
        while j < sorted.len() && sorted[j] <= x
            invariant
                j <= sorted.len(),
                forall|k: int| 0 <= k < j ==> sorted@[k] <= x,
            decreases sorted.len() - j,
        {
            j += 1;
        }
        proof {
            assert(forall|k: int| j <= k < sorted@.len() ==> sorted@[k] > x);
        }
        let ghost before = sorted@;
        sorted.insert(j, x);
        proof {
            assert(values@.take(i + 1) == values@.take(i as int).push(x));
            vstd::seq_lib::to_multiset_insert(before, j as int, x);
            vstd::seq_lib::to_multiset_build(values@.take(i as int), x);
            assert forall|a: int, b: int| 0 <= a <= b < sorted@.len() implies sorted@[a]
                <= sorted@[b] by {
                if a < j && b > j {
                    assert(sorted@[b] == before[b - 1]);
                }
                if a > j {
                    assert(sorted@[a] == before[a - 1]);
                    assert(sorted@[b] == before[b - 1]);
                }
            }
        }
        i += 1;
    }
    proof {
        assert(values@.take(n as int) == values@);
    }
    *values = sorted;
}

/// The values of `values` that are greater than 0.
fn positive_values(values: &Vec<u64>) -> (r: Vec<u64>)
    ensures
        r@ == positive(values@),
{
    let mut r: Vec<u64> = Vec::new();
    let n = values.len();
    let mut i: usize = 0;
    while i < n
        invariant
            n == values@.len(),
            i <= n,
            r@ == positive(values@.take(i as int)),
        decreases n - i,
    {
        proof {
            assert(values@.take(i + 1).drop_last() =~= values@.take(i as int));
        }
        if values[i] > 0 {
            r.push(values[i]);
        }
        i += 1;
    }
    proof {
        assert(values@.take(n as int) =~= values@);
    }
    r
}

/// Orders the values ascending.
fn sort_ascending(values: &mut Vec<u64>)
    ensures
        ascending(final(values)@),
        final(values)@.to_multiset() == old(values)@.to_multiset(),
{
    broadcast use vstd::seq_lib::group_to_multiset_ensures;

    let mut sorted: Vec<u64> = Vec::new();
    let n = values.len();
    let mut i: usize = 0;
    while i < n
        invariant
            n == values.len(),
            values@ == old(values)@,
            i <= n,
            ascending(sorted@),
            sorted@.to_multiset() == values@.take(i as int).to_multiset(),
        decreases n - i,
    {
        let x = values[i];
        let mut j: usize = 0;
        while j < sorted.len() && sorted[j] <= x
            invariant
                j <= sorted.len(),
                forall|k: int| 0 <= k < j ==> sorted@[k] <= x,
            decreases sorted.len() - j,
        {
            j += 1;
        }
        proof {
            assert(forall|k: int| j <= k < sorted@.len() ==> sorted@[k] > x);
        }
        let ghost before = sorted@;
        sorted.insert(j, x);
        proof {
            assert(values@.take(i + 1) == values@.take(i as int).push(x));
            vstd::seq_lib::to_multiset_insert(before, j as int, x);
            vstd::seq_lib::to_multiset_build(values@.take(i as int), x);
            assert forall|a: int, b: int| 0 <= a <= b < sorted@.len() implies sorted@[a]
                <= sorted@[b] by {
                if a < j && b > j {
                    assert(sorted@[b] == before[b - 1]);
                }
                if a > j {
                    assert(sorted@[a] == before[a - 1]);
                    assert(sorted@[b] == before[b - 1]);
                }
            }
        }
        i += 1;
    }
    proof {
        assert(values@.take(n as int) == values@);
    }
    *values = sorted;
}

/// Sum of the incomes of the first `n` months, in cents.
pub open spec fn income_sum(months: Seq<AccountingMonth>, n: int) -> int
    decreases n,
{
    if n <= 0 {
        0
    } else {
        income_sum(months, n - 1) + months[n - 1]@.1
    }
}

/// Sum of the expenses of the first `n` months, in cents.
pub open spec fn expenses_sum(months: Seq<AccountingMonth>, n: int) -> int
    decreases n,
{
    if n <= 0 {
        0
    } else {
        expenses_sum(months, n - 1) + months[n - 1]@.2
    }
}

proof fn lemma_sums_after_update(months: Seq<AccountingMonth>, k: int, m: AccountingMonth, n: int)
    requires
        0 <= k < months.len(),
        0 <= n <= months.len(),
    ensures
        income_sum(months.update(k, m), n) == income_sum(months, n) + if k < n {
            m@.1 - months[k]@.1
        } else {
            0
        },
        expenses_sum(months.update(k, m), n) == expenses_sum(months, n) + if k < n {
            m@.2 - months[k]@.2
        } else {
            0
        },
    decreases n,
{
    if n > 0 {
        lemma_sums_after_update(months, k, m, n - 1);
    }
}

/// Changing one month of the year, whichever it is, changes the year's income sum and its
/// expenses sum by exactly what that month's income and expenses change by.
pub proof fn law_every_month_counts_in_the_sums(months: Seq<AccountingMonth>, k: int, m: AccountingMonth)
    requires
        months.len() == 12,
        0 <= k < 12,
    ensures
        income_sum(months.update(k, m), 12) == income_sum(months, 12) - months[k]@.1 + m@.1,
        expenses_sum(months.update(k, m), 12) == expenses_sum(months, 12) - months[k]@.2 + m@.2,
{
    lemma_sums_after_update(months, k, m, 12);
}

/// A year whose months hold no income sums to an income of 0, and one whose months hold no
/// expenses to expenses of 0.
pub proof fn law_empty_months_sum_to_zero(months: Seq<AccountingMonth>)
    requires
        months.len() == 12,
    ensures
        (forall|i: int| 0 <= i < 12 ==> #[trigger] months[i]@.1 == 0) ==> income_sum(months, 12) == 0,
        (forall|i: int| 0 <= i < 12 ==> #[trigger] months[i]@.2 == 0) ==> expenses_sum(months, 12) == 0,
{
    assert forall|n: int| 0 <= n <= 12 implies ((forall|i: int| 0 <= i < 12 ==> #[trigger] months[i]@.1 == 0)
        ==> income_sum(months, n) == 0) && ((forall|i: int| 0 <= i < 12 ==> #[trigger] months[i]@.2 == 0)
        ==> expenses_sum(months, n) == 0) by {
        lemma_sums_of_empty_months(months, n);
    }
}

proof fn lemma_sums_of_empty_months(months: Seq<AccountingMonth>, n: int)
    requires
        months.len() == 12,
        0 <= n <= 12,
    ensures
        (forall|i: int| 0 <= i < 12 ==> #[trigger] months[i]@.1 == 0) ==> income_sum(months, n) == 0,
        (forall|i: int| 0 <= i < 12 ==> #[trigger] months[i]@.2 == 0) ==> expenses_sum(months, n) == 0,
    decreases n,
{
    if n > 0 {
        lemma_sums_of_empty_months(months, n - 1);
    }
}

/// The twelve months of one year of accounting.
#[derive(Debug, Clone, PartialEq, Eq)]
pub struct AccountingYear {
    // This value is needed, so that self knows which year it is (has no access to the map's key)
    pub year_nr: u16,
    pub months: [AccountingMonth; 12],
}

impl AccountingYear {
    /// This year holds `year_nr` and twelve months without values.
    pub open spec fn is_default_for(self, year_nr: u16) -> bool {
        self.year_nr == year_nr && are_default_months(self.months@)
    }

    pub fn default(year_nr: u16) -> (y: Self)
        ensures
            y.is_default_for(year_nr),
    {
        Self { year_nr, months: AccountingMonth::default_months() }
    }

    /// Puts `new_month` at the place of its month number (which has to be 1-12).
    ///
    /// If the month that was there held values other than defaults, it is returned
    /// (so that it can be shown to the user); a month without values is replaced silently.
    pub fn insert_or_overwrite_month(&mut self, new_month: AccountingMonth) -> (replaced: Option<
        AccountingMonth,
    >)
        requires
            1 <= new_month@.0 <= 12,
        ensures
            final(self).year_nr == old(self).year_nr,
            final(self).months@ == old(self).months@.update(new_month@.0 - 1, new_month),
            match replaced {
                Some(m) => m == old(self).months@[new_month@.0 - 1] && !is_default_month(m@, m@.0),
                None => is_default_month(
                    old(self).months@[new_month@.0 - 1]@,
                    old(self).months@[new_month@.0 - 1]@.0,
                ),
            },
    {
        let month_nr = new_month.month_nr();
        let index = month_nr as usize - 1;
        let mut old_month = new_month;
        std::mem::swap(&mut self.months[index], &mut old_month);
        if old_month.is_default() {
            None
        } else {
            Some(old_month)
        }
    }

    /// Sum of all incomes, in cents.
    pub fn get_sum_income(&self) -> (sum: u128)
        ensures
            sum == income_sum(self.months@, 12),
            sum <= 12 * 0xFFFF_FFFF_FFFF_FFFFu128,
    {
        let mut sum: u128 = 0;
        let mut i: usize = 0;
        while i < 12
            invariant
                i <= 12,
                sum == income_sum(self.months@, i as int),
                sum <= i * 0xFFFF_FFFF_FFFF_FFFFu128,
            decreases 12 - i,
        {
            sum = sum + self.months[i].income() as u128;
            i += 1;
        }
        sum
    }

    /// Sum of all expenses, in cents.
    pub fn get_sum_expenses(&self) -> (sum: u128)
        ensures
            sum == expenses_sum(self.months@, 12),
            sum <= 12 * 0xFFFF_FFFF_FFFF_FFFFu128,
    {
        let mut sum: u128 = 0;
        let mut i: usize = 0;
        while i < 12
            invariant
                i <= 12,
                sum == expenses_sum(self.months@, i as int),
                sum <= i * 0xFFFF_FFFF_FFFF_FFFFu128,
            decreases 12 - i,
        {
            sum = sum + self.months[i].expenses() as u128;
            i += 1;
        }
        sum
    }

    /// Sum of all incomes minus sum of all expenses, in cents.
    pub fn get_difference(&self) -> (d: i128)
        ensures
            d == income_sum(self.months@, 12) - expenses_sum(self.months@, 12),
    {
        let income = self.get_sum_income();
        let expenses = self.get_sum_expenses();
        income as i128 - expenses as i128
    }

    /// The two middle values (in cents) of the incomes that are not 0, in ascending order;
    /// the median is their mean. `Err(())` if there is no data to calculate a median of.
    pub fn get_median_income(&self) -> (r: Result<(u64, u64), ()>)
        ensures
            r is Err <==> positive(incomes(self.months@)).len() == 0,
            r matches Ok(p) ==> is_median_pair(incomes(self.months@), p),
    {
        let mut values: Vec<u64> = Vec::new();
        let mut i: usize = 0;
        while i < 12
            invariant
                i <= 12,
                values@ == incomes(self.months@).take(i as int),
            decreases 12 - i,
        {
            values.push(self.months[i].income());
            proof {
                assert(values@ =~= incomes(self.months@).take(i + 1));
            }
            i += 1;
        }
        proof {
            assert(values@ =~= incomes(self.months@));
        }
        Self::_get_median(&values)
    }

    /// The two middle values (in cents) of the expenses that are not 0, in ascending order;
    /// the median is their mean. `Err(())` if there is no data to calculate a median of.
    pub fn get_median_expenses(&self) -> (r: Result<(u64, u64), ()>)
        ensures
            r is Err <==> positive(expenses(self.months@)).len() == 0,
            r matches Ok(p) ==> is_median_pair(expenses(self.months@), p),
    {
        let mut values: Vec<u64> = Vec::new();
        let mut i: usize = 0;
        while i < 12
            invariant
                i <= 12,
                values@ == expenses(self.months@).take(i as int),
            decreases 12 - i,
        {
            values.push(self.months[i].expenses());
            proof {
                assert(values@ =~= expenses(self.months@).take(i + 1));
            }
            i += 1;
        }
        proof {
            assert(values@ =~= expenses(self.months@));
        }
        Self::_get_median(&values)
    }

    /// The two middle values (in cents) of the monthly differences (income minus expenses)
    /// that are not 0, in ascending order; the median is their mean.
    /// `Err(())` if there is no data to calculate a median of.
    pub fn get_median_difference(&self) -> (r: Result<(i128, i128), ()>)
        ensures
            r is Err <==> nonzero(differences(self.months@)).len() == 0,
            r matches Ok(p) ==> is_signed_median_pair(differences(self.months@), p),
    {
        let mut values: Vec<i128> = Vec::new();
        let mut i: usize = 0;
        while i < 12
            invariant
                i <= 12,
                values@ == differences(self.months@).take(i as int),
            decreases 12 - i,
        {
            let d = self.months[i].income() as i128 - self.months[i].expenses() as i128;
            values.push(d);
            proof {
                assert(values@ =~= differences(self.months@).take(i + 1));
            }
            i += 1;
        }
        proof {
            assert(values@ =~= differences(self.months@));
        }
        // remove all 0's
        let mut vec = nonzero_values(&values);
        let len = vec.len();
        if len == 0 {
            return Err(());
        }
        let ghost unsorted = vec@;
        sort_ascending_signed(&mut vec);
        proof {
            broadcast use vstd::seq_lib::group_to_multiset_ensures;

            assert(vec@.len() == vec@.to_multiset().len());
            assert(unsorted.len() == unsorted.to_multiset().len());
        }
        // if even, middle is between two elements: the mean of these two is the median
        // if odd, element in the middle is median
        let p = if len % 2 == 0 {
            (vec[len / 2 - 1], vec[len / 2])
        } else {
            (vec[len / 2], vec[len / 2])
        };
        proof {
            assert(vec@.to_multiset() == nonzero(values@).to_multiset());
            assert(p == middle_pair_signed(vec@));
        }
        Ok(p)
    }

    /// The middle pair of the values that are greater than 0, in ascending order.
    /// `Err(())` if there is no such value.
    fn _get_median(values: &Vec<u64>) -> (r: Result<(u64, u64), ()>)
        ensures
            r is Err <==> positive(values@).len() == 0,
            r matches Ok(p) ==> is_median_pair(values@, p),
    {
        // remove all 0's
        let mut vec = positive_values(values);
        let len = vec.len();
        if len == 0 {
            return Err(());
        }
        let ghost unsorted = vec@;
        sort_ascending(&mut vec);
        proof {
            broadcast use vstd::seq_lib::group_to_multiset_ensures;

            assert(vec@.len() == vec@.to_multiset().len());
            assert(unsorted.len() == unsorted.to_multiset().len());
        }
        // if even, middle is between two elements: the mean of these two is the median
        // if odd, element in the middle is median
        let p = if len % 2 == 0 {
            (vec[len / 2 - 1], vec[len / 2])
        } else {
            (vec[len / 2], vec[len / 2])
        };
        proof {
            assert(vec@.to_multiset() == positive(values@).to_multiset());
            assert(p == middle_pair(vec@));
        }
        Ok(p)
    }
}

} // verus!
