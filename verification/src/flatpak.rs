use vstd::prelude::*;
use vstd::string::StrSliceExecFns;

verus! {

/// `sep` stands in `s` at index `i`.
pub open spec fn occurs_at(s: Seq<char>, sep: Seq<char>, i: int) -> bool {
    0 <= i && i + sep.len() <= s.len() && s.subrange(i, i + sep.len()) == sep
}

/// The index of the first place at or after `from` where `sep` stands in `s`;
/// the length of `s` if there is none.
pub open spec fn first_occurrence(s: Seq<char>, sep: Seq<char>, from: int) -> int
    decreases s.len() + 1 - from,
{
    if from < 0 || from + sep.len() > s.len() {
        s.len() as int
    } else if occurs_at(s, sep, from) {
        from
    } else {
        first_occurrence(s, sep, from + 1)
    }
}

/// The text before the first `sep` (all of `s` if there is none): the first piece that
/// `str::split` gives.
pub open spec fn before_first(s: Seq<char>, sep: Seq<char>) -> Seq<char> {
    s.take(first_occurrence(s, sep, 0))
}

/// The characters with Unicode's `White_Space` property.
pub open spec fn is_white_space(c: char) -> bool {
    ||| '\u{9}' <= c <= '\u{d}'
    ||| c == ' '
    ||| c == '\u{85}'
    ||| c == '\u{a0}'
    ||| c == '\u{1680}'
    ||| '\u{2000}' <= c <= '\u{200a}'
    ||| c == '\u{2028}'
    ||| c == '\u{2029}'
    ||| c == '\u{202f}'
    ||| c == '\u{205f}'
    ||| c == '\u{3000}'
}

/// The index of the first character at or after `from` that is not white space.
pub open spec fn first_non_white_space(s: Seq<char>, from: int) -> int
    decreases s.len() - from,
{
    if from < 0 || from >= s.len() || !is_white_space(s[from]) {
        from
    } else {
        first_non_white_space(s, from + 1)
    }
}

/// `s` without the white space it starts with: `str::trim_start`.
pub open spec fn trim_start(s: Seq<char>) -> Seq<char> {
    s.skip(first_non_white_space(s, 0))
}

/// Whether `c` is white space.
fn white_space(c: char) -> (r: bool)
    ensures
        r == is_white_space(c),
{
    ('\u{9}' <= c && c <= '\u{d}') || c == ' ' || c == '\u{85}' || c == '\u{a0}' || c == '\u{1680}'
        || ('\u{2000}' <= c && c <= '\u{200a}') || c == '\u{2028}' || c == '\u{2029}' || c
        == '\u{202f}' || c == '\u{205f}' || c == '\u{3000}'
}

/// Whether `sep` stands in `s` at index `i`.
fn stands_at(s: &str, sep: &str, i: usize) -> (r: bool)
    requires
        i + sep@.len() <= s@.len(),
    ensures
        r == occurs_at(s@, sep@, i as int),
{
    let n = s.unicode_len();
    let m = sep.unicode_len();
    let mut j: usize = 0;
    while j < m
        invariant
            n == s@.len(),
            m == sep@.len(),
            i + m <= s@.len(),
            j <= m,
            forall|k: int| 0 <= k < j ==> s@[i + k] == sep@[k],
        decreases m - j,
    {
        if s.get_char(i + j) != sep.get_char(j) {
            proof {
                assert(s@.subrange(i as int, i + m)[j as int] != sep@[j as int]);
            }
            return false;
        }
        j += 1;
    }
    assert(s@.subrange(i as int, i + m) =~= sep@);
    true
}

/// The index of the first place where `sep` stands in `s`; the length of `s` if there is none.
fn find_first(s: &str, sep: &str) -> (r: usize)
    ensures
        r == first_occurrence(s@, sep@, 0),
{
    let n = s.unicode_len();
    let m = sep.unicode_len();
    if m > n {
        return n;
    }
    if m == 0 {
        assert(s@.subrange(0, 0) =~= sep@);
        return 0;
    }
    let last = n - m;
    let mut i: usize = 0;
    while i <= last
        invariant
            n == s@.len(),
            m == sep@.len(),
            1 <= m <= n,
            last == n - m,
            i <= last + 1,
            first_occurrence(s@, sep@, 0) == first_occurrence(s@, sep@, i as int),
        decreases last + 1 - i,
    {
        if stands_at(s, sep, i) {
            return i;
        }
        i += 1;
    }
    n
}

/// The index of the first character that is not white space (the length if there is none).
fn skip_white_space(s: &str) -> (r: usize)
    ensures
        r == first_non_white_space(s@, 0),
        r <= s@.len(),
{
    let n = s.unicode_len();
    let mut i: usize = 0;
    while i < n && white_space(s.get_char(i))
        invariant
            n == s@.len(),
            i <= n,
            first_non_white_space(s@, 0) == first_non_white_space(s@, i as int),
        decreases n - i,
    {
        i += 1;
    }
    i
}

/// For one line of `ldd`'s output, such as
/// `libbrotlicommon.so.1 => /lib/x86_64-linux-gnu/libbrotlicommon.so.1 (0x00007fc710790000)`:
/// the library's file name with its version (the text before ` => `, without the white
/// space it starts with), `libbrotlicommon.so.1`, and its name (that file name up to the
/// first `.`), `libbrotlicommon`.
pub fn ldd_library(line: &str) -> (r: (String, String))
    ensures
        r.0@ == trim_start(before_first(line@, " => "@)),
        r.1@ == before_first(r.0@, "."@),
{
    let end = find_first(line, " => ");
    assert(end <= line@.len()) by {
        lemma_first_occurrence_bounded(line@, " => "@, 0);
    }
    let before = line.substring_char(0, end);
    let start = skip_white_space(before);
    let trimmed = before.substring_char(start, before.unicode_len());
    let lib_name_version = String::from_str(trimmed);
    let dot = find_first(trimmed, ".");
    assert(dot <= trimmed@.len()) by {
        lemma_first_occurrence_bounded(trimmed@, "."@, 0);
    }
    let lib_name = String::from_str(trimmed.substring_char(0, dot));
    proof {
        assert(before@ == before_first(line@, " => "@));
        assert(trimmed@ =~= trim_start(before@));
        assert(lib_name@ =~= before_first(trimmed@, "."@));
    }
    (lib_name_version, lib_name)
}

proof fn lemma_first_occurrence_bounded(s: Seq<char>, sep: Seq<char>, from: int)
    requires
        0 <= from,
    ensures
        first_occurrence(s, sep, from) <= s.len(),
    decreases s.len() + 1 - from,
{
    if from + sep.len() <= s.len() && !occurs_at(s, sep, from) {
        lemma_first_occurrence_bounded(s, sep, from + 1);
    }
}

} // verus!
