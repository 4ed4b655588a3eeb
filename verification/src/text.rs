use crate::sanitize::push_char;
use vstd::prelude::*;
use vstd::string::StrSliceExecFns;

verus! {

/// The value of a sequence of decimal digits.
pub open spec fn digits_value(d: Seq<char>) -> int
    decreases d.len(),
{
    if d.len() == 0 {
        0
    } else {
        digits_value(d.drop_last()) * 10 + (d.last() as int - '0' as int)
    }
}

/// Every character is a decimal digit.
pub open spec fn all_digits(d: Seq<char>) -> bool {
    forall|i: int| 0 <= i < d.len() ==> '0' <= #[trigger] d[i] <= '9'
}

/// What `str::parse` gives for an unsigned integer type whose largest value is `max`:
/// an optional `+`, then at least one decimal digit and nothing else, with a value
/// that fits; `None` for everything else.
pub open spec fn parsed_unsigned(s: Seq<char>, max: int) -> Option<int> {
    let d = if s.len() > 0 && s[0] == '+' {
        s.skip(1)
    } else {
        s
    };
    if d.len() > 0 && all_digits(d) && digits_value(d) <= max {
        Some(digits_value(d))
    } else {
        None
    }
}

/// The decimal digit for `d` (0 to 9).
pub open spec fn digit_char(d: int) -> char {
    (d + '0' as int) as char
}

/// How `Display` writes a number: its decimal digits without leading zeros.
pub open spec fn decimal(n: nat) -> Seq<char>
    decreases n,
{
    if n < 10 {
        seq![digit_char(n as int)]
    } else {
        decimal(n / 10).push(digit_char((n % 10) as int))
    }
}

/// The value of `d` is at least that of any of its beginnings, if it holds only digits.
proof fn lemma_digits_value_grows(d: Seq<char>, k: int)
    requires
        0 <= k <= d.len(),
        all_digits(d),
    ensures
        0 <= digits_value(d.take(k)) <= digits_value(d),
    decreases d.len(),
{
    if d.len() == 0 {
        assert(d.take(k) =~= d);
    } else {
        let rest = d.drop_last();
        assert(all_digits(rest)) by {
            assert forall|i: int| 0 <= i < rest.len() implies '0' <= #[trigger] rest[i] <= '9' by {
                assert(rest[i] == d[i]);
            }
        }
        let k2 = if k < d.len() {
            k
        } else {
            rest.len() as int
        };
        lemma_digits_value_grows(rest, k2);
        assert(rest.take(rest.len() as int) =~= rest);
        if k < d.len() {
            assert(rest.take(k) =~= d.take(k));
        } else {
            assert(d.take(k) =~= d);
        }
        assert('0' <= d[d.len() - 1] <= '9');
    }
}

/// What `str::parse` gives for an unsigned integer type whose largest value is `max`:
/// the value of an optional `+` followed by at least one decimal digit and nothing else,
/// if it fits; `None` for everything else.
fn parse_decimal(s: &str, max: u64) -> (r: Option<u64>)
    ensures
        r matches Some(v) ==> parsed_unsigned(s@, max as int) == Some(v as int),
        r is None ==> parsed_unsigned(s@, max as int) is None,
{
    let len = s.unicode_len();
    let mut start: usize = 0;
    if len > 0 && s.get_char(0) == '+' {
        start = 1;
    }
    let ghost d = if s@.len() > 0 && s@[0] == '+' {
        s@.skip(1)
    } else {
        s@
    };
    proof {
        assert(d =~= s@.skip(start as int));
    }
    if start == len {
        // no digit at all
        return None;
    }
    let mut i: usize = start;
    let mut acc: u64 = 0;
    while i < len
        invariant
            start <= i <= len,
            len == s@.len(),
            d == s@.skip(start as int),
            d == (if s@.len() > 0 && s@[0] == '+' {
                s@.skip(1)
            } else {
                s@
            }),
            all_digits(d.take(i - start)),
            acc == digits_value(d.take(i - start)),
            acc <= max,
        decreases len - i,
    {
        let c = s.get_char(i);
        let ghost k = i - start;
        proof {
            assert(d[k] == c);
            assert(d.take(k + 1).drop_last() =~= d.take(k));
            assert(d.take(k + 1).last() == c);
        }
        if c < '0' || c > '9' {
            proof {
                assert(!('0' <= d[k] <= '9'));
                assert(!all_digits(d));
            }
            return None;
        }
        let digit = (c as u32 - '0' as u32) as u64;
        proof {
            assert(digit == c as int - '0' as int);
            assert(digits_value(d.take(k + 1)) == acc * 10 + digit);
        }
        if digit > max || acc > (max - digit) / 10 {
            proof {
                assert(acc * 10 + digit > max) by (nonlinear_arith)
                    requires
                        digit > max || acc > (max - digit) / 10,
                        digit <= 9,
                ;
                if all_digits(d) {
                    lemma_digits_value_grows(d, k + 1);
                    assert(digits_value(d) > max);
                }
            }
            return None;
        }
        proof {
            assert(acc * 10 + digit <= max) by (nonlinear_arith)
                requires
                    digit <= max,
                    acc <= (max - digit) / 10,
            ;
        }
        acc = acc * 10 + digit;
        proof {
            assert forall|j: int| 0 <= j < k + 1 implies '0' <= #[trigger] d.take(k + 1)[j] <= '9' by {
                if j < k {
                    assert(d.take(k + 1)[j] == d.take(k)[j]);
                }
            }
        }
        i += 1;
    }
    proof {
        assert(d.take(i - start) =~= d);
    }
    Some(acc)
}

/// `str::parse::<u64>`, with the error dropped: `Some` of the value of an optional `+` followed
/// by decimal digits that fit into a `u64`, `None` for everything else.
pub(crate) fn parse_u64(s: &str) -> (r: Option<u64>)
    ensures
        r matches Some(v) ==> parsed_unsigned(s@, u64::MAX as int) == Some(v as int),
        r is None ==> parsed_unsigned(s@, u64::MAX as int) is None,
{
    parse_decimal(s, u64::MAX)
}

/// `str::parse::<u8>`, with the error dropped: `Some` of the value of an optional `+` followed
/// by decimal digits that fit into a `u8`, `None` for everything else.
pub(crate) fn parse_u8(s: &str) -> (r: Option<u8>)
    ensures
        r matches Some(v) ==> parsed_unsigned(s@, u8::MAX as int) == Some(v as int),
        r is None ==> parsed_unsigned(s@, u8::MAX as int) is None,
{
    match parse_decimal(s, 255) {
        Some(v) => Some(v as u8),
        None => None,
    }
}

/// `str::parse::<usize>`, with the error dropped: `Some` of the value of an optional `+`
/// followed by decimal digits that fit into a `usize`, `None` for everything else.
pub(crate) fn parse_usize(s: &str) -> (r: Option<usize>)
    ensures
        r matches Some(v) ==> parsed_unsigned(s@, usize::MAX as int) == Some(v as int),
        r is None ==> parsed_unsigned(s@, usize::MAX as int) is None,
{
    match parse_decimal(s, usize::MAX as u64) {
        Some(v) => Some(v as usize),
        None => None,
    }
}

/// Appends the decimal digits of `n`, as `Display` writes them.
fn push_decimal(out: &mut String, n: usize)
    ensures
        final(out)@ == old(out)@ + decimal(n as nat),
    decreases n,
{
    if n >= 10 {
        push_decimal(out, n / 10);
    }
    let last = (n % 10) as u8;
    let c = (last + 48u8) as char;
    proof {
        assert(c == digit_char((n % 10) as int));
    }
    let ghost before = out@;
    push_char(out, c);
    proof {
        if n >= 10 {
            assert(before + seq![c] =~= before.push(c));
            assert(old(out)@ + decimal((n / 10) as nat).push(c) =~= (old(out)@ + decimal(
                (n / 10) as nat,
            )).push(c));
        } else {
            assert(old(out)@ + seq![c] =~= old(out)@.push(c));
        }
    }
}

/// How `Display` writes a number with the width 2 and the fill `0` (`{:02}`): a number
/// below 10 gets a leading zero, a larger one is written as it is.
pub open spec fn two_digits(n: nat) -> Seq<char> {
    if n < 10 {
        seq!['0'] + decimal(n)
    } else {
        decimal(n)
    }
}

/// The label `year-month`, as `format!("{year}-{month:02}")` writes it: the year in decimal
/// and the month in at least two digits, joined by `-`.
pub(crate) fn year_month_label(year: usize, month: usize) -> (r: String)
    ensures
        r@ == decimal(year as nat) + "-"@ + two_digits(month as nat),
{
    let mut r = String::new();
    push_decimal(&mut r, year);
    push_char(&mut r, '-');
    if month < 10 {
        push_char(&mut r, '0');
    }
    push_decimal(&mut r, month);
    proof {
        reveal_strlit("-");
        assert(Seq::<char>::empty() + decimal(year as nat) =~= decimal(year as nat));
        if month < 10 {
            assert(decimal(year as nat).push('-').push('0') + decimal(month as nat) =~= decimal(
                year as nat,
            ) + "-"@ + two_digits(month as nat));
        } else {
            assert(decimal(year as nat).push('-') + decimal(month as nat) =~= decimal(year as nat)
                + "-"@ + two_digits(month as nat));
        }
    }
    r
}

} // verus!
