//! Decimal numerals: the text of a numeric literal.
//!
//! A numeral is one or more decimal digits, then optionally a point and
//! further digits, then optionally an exponent: `e` or `E`, an optional sign,
//! and one or more digits. This is the digit-led part of what the standard
//! library reads as a floating-point number, so the text of every numeral
//! converts to a value.

use vstd::prelude::*;
use crate::chars::chars_of;

verus! {

/// A decimal digit, `0` to `9`.
pub open spec fn is_digit(c: char) -> bool {
    '0' <= c && c <= '9'
}

/// Every character of `s` is a decimal digit.
pub open spec fn all_digits(s: Seq<char>) -> bool {
    forall|i: int| 0 <= i < s.len() ==> is_digit(#[trigger] s[i])
}

/// One or more decimal digits.
pub open spec fn is_digits(s: Seq<char>) -> bool {
    s.len() > 0 && all_digits(s)
}

/// Digits, or digits followed by a point and any number of digits.
pub open spec fn is_mantissa(s: Seq<char>) -> bool {
    is_digits(s) || exists|k: int|
        0 < k < s.len() && #[trigger] is_digits(s.take(k)) && s[k] == '.' && all_digits(
            s.skip(k + 1),
        )
}

/// The letter `e` in either case, an optional sign, and digits.
pub open spec fn is_exponent(s: Seq<char>) -> bool {
    &&& s.len() >= 2
    &&& s[0] == 'e' || s[0] == 'E'
    &&& is_digits(s.skip(1)) || ((s[1] == '+' || s[1] == '-') && is_digits(s.skip(2)))
}

/// A mantissa, optionally followed by an exponent.
pub open spec fn is_numeral(s: Seq<char>) -> bool {
    is_mantissa(s) || exists|m: int|
        0 < m < s.len() && #[trigger] is_mantissa(s.take(m)) && is_exponent(s.skip(m))
}

/// The text of a numeric literal. Every value of this type is a numeral.
#[derive(Debug, PartialEq)]
pub struct Numeral {
    text: String,
}

impl View for Numeral {
    type V = Seq<char>;

    closed spec fn view(&self) -> Seq<char> {
        self.text@
    }
}

impl Numeral {
    #[verifier::type_invariant]
    spec fn well_formed(&self) -> bool {
        is_numeral(self.text@)
    }

    /// Reads `text` as a numeral: `Some` exactly if it is one, and then the
    /// numeral holds that text unchanged.
    pub fn parse(text: &str) -> (r: Option<Numeral>)
        ensures
            r is Some <==> is_numeral(text@),
            r matches Some(n) ==> n@ == text@,
    {
        let chars = chars_of(text);
        Numeral::read(text, &chars)
    }

    /// As [`Numeral::parse`], for a caller that holds the characters of
    /// `text` already.
    pub(crate) fn read(text: &str, chars: &Vec<char>) -> (r: Option<Numeral>)
        requires
            chars@ == text@,
        ensures
            r is Some <==> is_numeral(text@),
            r matches Some(n) ==> n@ == text@,
    {
        if is_numeral_text(chars) {
            Some(Numeral { text: text.to_owned() })
        } else {
            None
        }
    }

    /// The text of the numeral.
    pub fn as_str(&self) -> (text: &str)
        ensures
            text@ == self@,
            is_numeral(text@),
    {
        proof {
            use_type_invariant(self);
        }
        self.text.as_str()
    }
}

impl Clone for Numeral {
    fn clone(&self) -> (copy: Numeral)
        ensures
            copy@ == self@,
    {
        proof {
            use_type_invariant(self);
        }
        Numeral { text: self.text.clone() }
    }
}

/// The end of the run of digits that starts at `from`.
fn skip_digits(chars: &Vec<char>, from: usize) -> (end: usize)
    requires
        from <= chars.len(),
    ensures
        from <= end <= chars.len(),
        forall|i: int| from <= i < end ==> is_digit(#[trigger] chars@[i]),
        end < chars.len() ==> !is_digit(chars@[end as int]),
{
    let mut end: usize = from;
    while end < chars.len() && '0' <= chars[end] && chars[end] <= '9'
        invariant
            from <= end <= chars.len(),
            forall|i: int| from <= i < end ==> is_digit(#[trigger] chars@[i]),
        decreases chars.len() - end,
    {
        end += 1;
    }
    end
}

/// Whether `chars` is a numeral.
pub fn is_numeral_text(chars: &Vec<char>) -> (r: bool)
    ensures
        r == is_numeral(chars@),
{
    let n = chars.len();
    let whole = skip_digits(chars, 0);
    if whole == 0 {
        proof {
            if is_numeral(chars@) {
                lemma_numeral_starts_with_digit(chars@);
            }
        }
        return false;
    }
    let mantissa = if whole < n && chars[whole] == '.' {
        skip_digits(chars, whole + 1)
    } else {
        whole
    };
    proof {
        lemma_mantissa_end(chars@, whole as int, mantissa as int);
    }
    if mantissa == n {
        return true;
    }
    if chars[mantissa] != 'e' && chars[mantissa] != 'E' {
        return false;
    }
    let digits = if mantissa + 1 < n && (chars[mantissa + 1] == '+' || chars[mantissa + 1] == '-') {
        mantissa + 2
    } else {
        mantissa + 1
    };
    let end = skip_digits(chars, digits);
    proof {
        lemma_exponent_end(chars@, mantissa as int, digits as int, end as int);
    }
    end == n && end > digits
}

/// A numeral begins with a digit.
pub proof fn lemma_numeral_starts_with_digit(s: Seq<char>)
    requires
        is_numeral(s),
    ensures
        s.len() > 0,
        is_digit(s[0]),
{
    if is_mantissa(s) {
        lemma_mantissa_starts_with_digit(s);
    } else {
        let m = choose|m: int|
            0 < m < s.len() && #[trigger] is_mantissa(s.take(m)) && is_exponent(s.skip(m));
        lemma_mantissa_starts_with_digit(s.take(m));
    }
}

proof fn lemma_mantissa_starts_with_digit(s: Seq<char>)
    requires
        is_mantissa(s),
    ensures
        s.len() > 0,
        is_digit(s[0]),
{
    if is_digits(s) {
        assert(is_digit(s[0]));
    } else {
        let k = choose|k: int|
            0 < k < s.len() && #[trigger] is_digits(s.take(k)) && s[k] == '.' && all_digits(
                s.skip(k + 1),
            );
        assert(is_digit(s.take(k)[0]));
    }
}

/// Where the mantissa of a digit-led text ends: `whole` is the end of its
/// leading digits and `end` the end of the fraction that may follow them.
/// The text is a numeral exactly if it stops there or an exponent follows.
proof fn lemma_mantissa_end(s: Seq<char>, whole: int, end: int)
    requires
        0 < whole <= end <= s.len(),
        forall|i: int| 0 <= i < whole ==> is_digit(#[trigger] s[i]),
        whole < s.len() ==> !is_digit(s[whole]),
        whole < s.len() && s[whole] == '.' ==> {
            &&& whole < end
            &&& forall|i: int| whole < i < end ==> is_digit(#[trigger] s[i])
            &&& end < s.len() ==> !is_digit(s[end])
        },
        !(whole < s.len() && s[whole] == '.') ==> end == whole,
    ensures
        is_mantissa(s.take(end)),
        is_numeral(s) <==> (end == s.len() || is_exponent(s.skip(end))),
{
    lemma_mantissa_split(s.take(end), whole);
    if end == s.len() {
        assert(s.take(end) =~= s);
    } else if is_exponent(s.skip(end)) {
        assert(is_mantissa(s.take(end)));
    }
    if is_numeral(s) && end < s.len() {
        if is_mantissa(s) {
            assert(s.take(s.len() as int) =~= s);
            lemma_mantissa_stops(s, whole, s.len() as int, end);
        } else {
            let m = choose|m: int|
                0 < m < s.len() && #[trigger] is_mantissa(s.take(m)) && is_exponent(s.skip(m));
            assert(s.skip(m)[0] == s[m]);
            lemma_mantissa_stops(s, whole, m, end);
        }
    }
}

/// Whether an exponent begins at position `from`, which holds the letter
/// `e`: it does exactly if the digits after the optional sign, which begin at
/// `digits` and end at `end`, are at least one and run to the end of the
/// text.
proof fn lemma_exponent_end(s: Seq<char>, from: int, digits: int, end: int)
    requires
        0 <= from < s.len(),
        s[from] == 'e' || s[from] == 'E',
        digits == if from + 1 < s.len() && (s[from + 1] == '+' || s[from + 1] == '-') {
            from + 2
        } else {
            from + 1
        },
        digits <= end <= s.len(),
        forall|i: int| digits <= i < end ==> is_digit(#[trigger] s[i]),
        end < s.len() ==> !is_digit(s[end]),
    ensures
        is_exponent(s.skip(from)) <==> (end == s.len() && end > digits),
{
    let tail = s.skip(from);
    let rest = s.skip(digits);
    assert(forall|i: int| 0 <= i < tail.len() ==> tail[i] == s[from + i]);
    assert(rest =~= tail.skip(digits - from));
    if end == s.len() && end > digits {
        assert(is_digits(rest));
    }
    if is_exponent(tail) {
        if digits == from + 2 && is_digits(tail.skip(1)) {
            // a sign is no digit
            assert(is_digit(tail.skip(1)[0]));
        }
        assert(is_digits(rest));
        assert(is_digit(rest[0]));
        if end < s.len() {
            assert(is_digit(rest[end - digits]));
        }
    }
}

/// A text whose first `whole` characters are digits, followed by nothing or
/// by a point and digits only, is a mantissa.
proof fn lemma_mantissa_split(s: Seq<char>, whole: int)
    requires
        0 < whole <= s.len(),
        forall|i: int| 0 <= i < whole ==> is_digit(#[trigger] s[i]),
        whole < s.len() ==> s[whole] == '.',
        forall|i: int| whole < i < s.len() ==> is_digit(#[trigger] s[i]),
    ensures
        is_mantissa(s),
{
    if whole == s.len() {
        assert(is_digits(s));
    } else {
        assert(is_digits(s.take(whole)));
        assert(all_digits(s.skip(whole + 1)));
    }
}

/// If the first `m` characters of `s` are a mantissa and what follows them,
/// if anything, is no digit and no point, then `m` is where the scan from
/// the left says that the mantissa ends.
proof fn lemma_mantissa_stops(s: Seq<char>, whole: int, m: int, end: int)
    requires
        0 < whole <= end <= s.len(),
        0 < m <= s.len(),
        is_mantissa(s.take(m)),
        m < s.len() ==> s[m] == 'e' || s[m] == 'E',
        forall|i: int| 0 <= i < whole ==> is_digit(#[trigger] s[i]),
        whole < s.len() ==> !is_digit(s[whole]),
        whole < s.len() && s[whole] == '.' ==> {
            &&& whole < end
            &&& forall|i: int| whole < i < end ==> is_digit(#[trigger] s[i])
            &&& end < s.len() ==> !is_digit(s[end])
        },
        !(whole < s.len() && s[whole] == '.') ==> end == whole,
    ensures
        m == end,
{
    let t = s.take(m);
    assert(forall|i: int| 0 <= i < m ==> t[i] == s[i]);
    if is_digits(t) {
        // every character before `m` is a digit, and the one at `m` is not
        if m > whole {
            assert(is_digit(t[whole]));
        }
        if m < whole {
            assert(is_digit(s[m]));
        }
    } else {
        let k = choose|k: int|
            0 < k < t.len() && #[trigger] is_digits(t.take(k)) && t[k] == '.' && all_digits(
                t.skip(k + 1),
            );
        if k > whole {
            assert(is_digit(t.take(k)[whole]));
        }
        if k < whole {
            assert(is_digit(s[k]));
        }
        assert(k == whole);
        assert(forall|i: int| whole < i < m ==> is_digit(s[i])) by {
            assert forall|i: int| whole < i < m implies is_digit(s[i]) by {
                assert(is_digit(t.skip(k + 1)[i - k - 1]));
            }
        }
        if m > end {
            assert(is_digit(s[end]));
        }
        if m < end {
            assert(is_digit(s[m]));
        }
    }
}

} // verus!
