use vstd::prelude::*;
use vstd::string::StrSliceExecFns;

verus! {

/// What `str::to_lowercase` gives for a string: its lowercase equivalent as defined by
/// the Unicode derived core property `Lowercase` (independent of any locale).
pub uninterp spec fn lowercase(s: Seq<char>) -> Seq<char>;

/// A character with `A`-`Z` turned into `a`-`z`.
pub open spec fn ascii_lower(c: char) -> char {
    if 'A' <= c <= 'Z' {
        ((c as u32) + 32) as char
    } else {
        c
    }
}

/// The text with `A`-`Z` turned into `a`-`z`.
pub open spec fn ascii_lowercase(s: Seq<char>) -> Seq<char> {
    s.map_values(|c: char| ascii_lower(c))
}

/// Every character is an ASCII character.
pub open spec fn is_ascii(s: Seq<char>) -> bool {
    forall|i: int| 0 <= i < s.len() ==> (#[trigger] s[i] as u32) < 128
}

/// `str::to_lowercase`: the result is the lowercase equivalent of `s`. In Unicode's
/// lowercase mapping the ASCII letters `A`-`Z` map to `a`-`z` and every other ASCII
/// character to itself, so an ASCII text is lowercased as `str::to_ascii_lowercase` does.
#[verifier::external_body]
fn to_lowercase(s: &str) -> (r: String)
    ensures
        r@ == lowercase(s@),
        is_ascii(s@) ==> r@ == ascii_lowercase(s@),
{
    s.to_lowercase()
}

/// Whether two strings hold the same characters.
fn str_equals(a: &str, b: &str) -> (r: bool)
    ensures
        r == (a@ == b@),
{
    let n = a.unicode_len();
    if n != b.unicode_len() {
        return false;
    }
    let mut i: usize = 0;
    while i < n
        invariant
            n == a@.len(),
            n == b@.len(),
            i <= n,
            forall|j: int| 0 <= j < i ==> a@[j] == b@[j],
        decreases n - i,
    {
        if a.get_char(i) != b.get_char(i) {
            return false;
        }
        i += 1;
    }
    assert(a@ =~= b@);
    true
}

/// The kind of an investment.
#[derive(Debug, Clone, Copy, PartialEq, Eq, Structural)]
pub enum InvestmentVariant {
    Stock,
    Fund,
    Etf,
    Bond,
    Option,
    Commoditiy,
    Crypto,
}

/// The variant whose lowercase name is `lower`, if there is one.
pub open spec fn variant_named(lower: Seq<char>) -> Option<InvestmentVariant> {
    if lower == "stock"@ {
        Some(InvestmentVariant::Stock)
    } else if lower == "fund"@ {
        Some(InvestmentVariant::Fund)
    } else if lower == "etf"@ {
        Some(InvestmentVariant::Etf)
    } else if lower == "bond"@ {
        Some(InvestmentVariant::Bond)
    } else if lower == "option"@ {
        Some(InvestmentVariant::Option)
    } else if lower == "commoditiy"@ {
        Some(InvestmentVariant::Commoditiy)
    } else if lower == "crypto"@ {
        Some(InvestmentVariant::Crypto)
    } else {
        None
    }
}

/// The name of a variant, as it is shown to the user.
pub open spec fn variant_name(v: InvestmentVariant) -> Seq<char> {
    match v {
        InvestmentVariant::Stock => "Stock"@,
        InvestmentVariant::Fund => "Fund"@,
        InvestmentVariant::Etf => "Etf"@,
        InvestmentVariant::Bond => "Bond"@,
        InvestmentVariant::Option => "Option"@,
        InvestmentVariant::Commoditiy => "Commoditiy"@,
        InvestmentVariant::Crypto => "Crypto"@,
    }
}

/// The name a variant is shown with (`to_string`) is ASCII, and `from_str` reads it back
/// as that variant.
pub proof fn law_shown_name_parses_back(v: InvestmentVariant)
    ensures
        is_ascii(variant_name(v)),
        variant_named(ascii_lowercase(variant_name(v))) == Some(v),
{
    reveal_strlit("Stock");
    reveal_strlit("stock");
    reveal_strlit("Fund");
    reveal_strlit("fund");
    reveal_strlit("Etf");
    reveal_strlit("etf");
    reveal_strlit("Bond");
    reveal_strlit("bond");
    reveal_strlit("Option");
    reveal_strlit("option");
    reveal_strlit("Commoditiy");
    reveal_strlit("commoditiy");
    reveal_strlit("Crypto");
    reveal_strlit("crypto");
    match v {
        InvestmentVariant::Stock => {
            assert(ascii_lowercase("Stock"@) =~= "stock"@);
        },
        InvestmentVariant::Fund => {
            assert(ascii_lowercase("Fund"@) =~= "fund"@);
            assert("fund"@ != "stock"@);
        },
        InvestmentVariant::Etf => {
            assert(ascii_lowercase("Etf"@) =~= "etf"@);
        },
        InvestmentVariant::Bond => {
            assert(ascii_lowercase("Bond"@) =~= "bond"@);
            assert("bond"@[0] != "fund"@[0]);
        },
        InvestmentVariant::Option => {
            assert(ascii_lowercase("Option"@) =~= "option"@);
        },
        InvestmentVariant::Commoditiy => {
            assert(ascii_lowercase("Commoditiy"@) =~= "commoditiy"@);
        },
        InvestmentVariant::Crypto => {
            assert(ascii_lowercase("Crypto"@) =~= "crypto"@);
            assert("crypto"@[0] != "option"@[0]);
        },
    }
}

impl InvestmentVariant {
    /// Parses a variant from its name, ignoring case.
    /// The error names the string that is not a possible variant.
    pub fn from_str(s: &str) -> (r: Result<Self, String>)
        ensures
            match variant_named(lowercase(s@)) {
                Some(v) => r == Ok::<Self, String>(v),
                None => r matches Err(e) && e@ == s@ + " is not a possible InvestmentVariant"@,
            },
            is_ascii(s@) ==> match variant_named(ascii_lowercase(s@)) {
                Some(v) => r == Ok::<Self, String>(v),
                None => r is Err,
            },
    {
        let lower = to_lowercase(s);
        let l = lower.as_str();
        if str_equals(l, "stock") {
            Ok(Self::Stock)
        } else if str_equals(l, "fund") {
            Ok(Self::Fund)
        } else if str_equals(l, "etf") {
            Ok(Self::Etf)
        } else if str_equals(l, "bond") {
            Ok(Self::Bond)
        } else if str_equals(l, "option") {
            Ok(Self::Option)
        } else if str_equals(l, "commoditiy") {
            Ok(Self::Commoditiy)
        } else if str_equals(l, "crypto") {
            Ok(Self::Crypto)
        } else {
            let mut e = String::from_str(s);
            e.append(" is not a possible InvestmentVariant");
            Err(e)
        }
    }

    /// All variants, in the order they are declared.
    pub fn into_iter() -> (all: Vec<Self>)
        ensures
            all@ == seq![
                InvestmentVariant::Stock,
                InvestmentVariant::Fund,
                InvestmentVariant::Etf,
                InvestmentVariant::Bond,
                InvestmentVariant::Option,
                InvestmentVariant::Commoditiy,
                InvestmentVariant::Crypto,
            ],
    {
        let all = vec![
            InvestmentVariant::Stock,
            InvestmentVariant::Fund,
            InvestmentVariant::Etf,
            InvestmentVariant::Bond,
            InvestmentVariant::Option,
            InvestmentVariant::Commoditiy,
            InvestmentVariant::Crypto,
        ];
        assert(all@ =~= seq![
            InvestmentVariant::Stock,
            InvestmentVariant::Fund,
            InvestmentVariant::Etf,
            InvestmentVariant::Bond,
            InvestmentVariant::Option,
            InvestmentVariant::Commoditiy,
            InvestmentVariant::Crypto,
        ]);
        all
    }

    /// The name of the variant, as it is shown to the user.
    pub fn to_string(&self) -> (s: String)
        ensures
            s@ == variant_name(*self),
    {
        match self {
            InvestmentVariant::Stock => String::from_str("Stock"),
            InvestmentVariant::Fund => String::from_str("Fund"),
            InvestmentVariant::Etf => String::from_str("Etf"),
            InvestmentVariant::Bond => String::from_str("Bond"),
            InvestmentVariant::Option => String::from_str("Option"),
            InvestmentVariant::Commoditiy => String::from_str("Commoditiy"),
            InvestmentVariant::Crypto => String::from_str("Crypto"),
        }
    }
}

} // verus!
