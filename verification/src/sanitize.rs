use vstd::prelude::*;
use vstd::string::StrSliceExecFns;

verus! {

/// `String::push`: the character is appended.
#[verifier::external_body]
pub(crate) fn push_char(s: &mut String, c: char)
    ensures
        final(s)@ == old(s)@.push(c),
{
    s.push(c);
}

/// The characters a number may be written with: digits, `.`, `+` and `-`.
pub open spec fn is_number_char(c: char) -> bool {
    c == '.' || c == '-' || c == '+' || ('0' <= c <= '9')
}

/// `s` with every `,` replaced by `.`, then only the characters a number may be written with.
pub open spec fn number_chars(s: Seq<char>) -> Seq<char>
    decreases s.len(),
{
    if s.len() == 0 {
        Seq::empty()
    } else {
        let c = if s.last() == ',' {
            '.'
        } else {
            s.last()
        };
        if is_number_char(c) {
            number_chars(s.drop_last()).push(c)
        } else {
            number_chars(s.drop_last())
        }
    }
}

/// `s` with every `,` replaced by `.`, then only the digits and `.`: the text of an
/// amount of money, without its sign.
pub open spec fn monetary_chars(s: Seq<char>) -> Seq<char>
    decreases s.len(),
{
    if s.len() == 0 {
        Seq::empty()
    } else {
        let c = if s.last() == ',' {
            '.'
        } else {
            s.last()
        };
        if c == '.' || ('0' <= c <= '9') {
            monetary_chars(s.drop_last()).push(c)
        } else {
            monetary_chars(s.drop_last())
        }
    }
}

/// Every character is one a number may be written with.
pub open spec fn only_number_chars(s: Seq<char>) -> bool {
    forall|i: int| 0 <= i < s.len() ==> is_number_char(#[trigger] s[i])
}

proof fn lemma_number_chars_are_number_chars(s: Seq<char>)
    ensures
        only_number_chars(number_chars(s)),
    decreases s.len(),
{
    if s.len() > 0 {
        lemma_number_chars_are_number_chars(s.drop_last());
    }
}

proof fn lemma_number_chars_keeps_number_chars(s: Seq<char>)
    requires
        only_number_chars(s),
    ensures
        number_chars(s) == s,
    decreases s.len(),
{
    if s.len() > 0 {
        assert(is_number_char(s[s.len() - 1]));
        lemma_number_chars_keeps_number_chars(s.drop_last());
        assert(s.drop_last().push(s.last()) =~= s);
    }
}

/// Cleaning up a text that was cleaned up already changes nothing.
pub proof fn law_number_chars_idempotent(s: Seq<char>)
    ensures
        number_chars(number_chars(s)) == number_chars(s),
{
    lemma_number_chars_are_number_chars(s);
    lemma_number_chars_keeps_number_chars(number_chars(s));
}

/// Helpers to clean up what a user typed in.
pub struct SanitizeInput;

impl SanitizeInput {
    /// The text of a number in `string`, ready to be parsed:
    /// - `,` is taken as the decimal separator, like `.`
    /// - everything thats not a digit or `.` `,` `+` `-` is dropped
    pub fn number_chars(string: &str) -> (filtered: String)
        ensures
            filtered@ == number_chars(string@),
    {
        let n = string.unicode_len();
        let mut filtered = String::new();
        let mut i: usize = 0;
        while i < n
            invariant
                n == string@.len(),
                i <= n,
                filtered@ == number_chars(string@.take(i as int)),
            decreases n - i,
        {
            let c = string.get_char(i);
            let c = if c == ',' {
                '.'
            } else {
                c
            };
            if c == '.' || c == '-' || c == '+' || ('0' <= c && c <= '9') {
                push_char(&mut filtered, c);
            }
            proof {
                assert(string@.take(i + 1).drop_last() =~= string@.take(i as int));
            }
            i += 1;
        }
        proof {
            assert(string@.take(n as int) =~= string@);
        }
        filtered
    }

    /// The text of an amount of money in `string`, ready to be parsed:
    /// - `,` is taken as the decimal separator, like `.`
    /// - everything thats not a digit or `.` `,` is dropped (so is a sign)
    pub fn monetary_chars(string: &str) -> (filtered: String)
        ensures
            filtered@ == monetary_chars(string@),
    {
        let n = string.unicode_len();
        let mut filtered = String::new();
        let mut i: usize = 0;
        while i < n
            invariant
                n == string@.len(),
                i <= n,
                filtered@ == monetary_chars(string@.take(i as int)),
            decreases n - i,
        {
            let c = string.get_char(i);
            let c = if c == ',' {
                '.'
            } else {
                c
            };
            if c == '.' || ('0' <= c && c <= '9') {
                push_char(&mut filtered, c);
            }
            proof {
                assert(string@.take(i + 1).drop_last() =~= string@.take(i as int));
            }
            i += 1;
        }
        proof {
            assert(string@.take(n as int) =~= string@);
        }
        filtered
    }
}

} // verus!
