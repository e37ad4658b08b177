//! Decimal literals: the numbers of a WKT text, kept exactly as written.

use vstd::prelude::*;
use vstd::string::StringExecFns;
use crate::text::{from_chars, to_chars};

verus! {

/// An ASCII decimal digit.
pub open spec fn is_digit(c: char) -> bool {
    '0' <= c && c <= '9'
}

/// Digits with at most one decimal point among them, and at least one digit:
/// `12`, `12.5`, `.5`, `12.`.
pub open spec fn is_unsigned_decimal(s: Seq<char>) -> bool {
    &&& forall|i: int| 0 <= i < s.len() ==> is_digit(#[trigger] s[i]) || s[i] == '.'
    &&& forall|i: int, j: int|
        #![trigger s[i], s[j]]
        0 <= i < s.len() && 0 <= j < s.len() && s[i] == '.' && s[j] == '.' ==> i == j
    &&& exists|i: int| 0 <= i < s.len() && is_digit(#[trigger] s[i])
}

/// A decimal literal: an unsigned decimal, or `-` and an unsigned decimal.
/// There is no exponent and no leading `+`.
pub open spec fn is_decimal(s: Seq<char>) -> bool {
    if s.len() > 0 && s[0] == '-' {
        is_unsigned_decimal(s.drop_first())
    } else {
        is_unsigned_decimal(s)
    }
}

/// Whether `chars[from..to]` is an unsigned decimal.
fn check_unsigned_decimal(chars: &Vec<char>, from: usize, to: usize) -> (r: bool)
    requires
        from <= to <= chars.len(),
    ensures
        r == is_unsigned_decimal(chars@.subrange(from as int, to as int)),
{
    let ghost s = chars@.subrange(from as int, to as int);
    let mut seen_point = false;
    let mut seen_digit = false;
    let ghost mut point_at: int = 0;
    let ghost mut digit_at: int = 0;
    let mut i: usize = from;
    while i < to
        invariant
            from <= i <= to <= chars.len(),
            s == chars@.subrange(from as int, to as int),
            forall|k: int| 0 <= k < i - from ==> is_digit(#[trigger] s[k]) || s[k] == '.',
            seen_point ==> 0 <= point_at < i - from && s[point_at] == '.',
            forall|k: int| 0 <= k < i - from && #[trigger] s[k] == '.' ==> seen_point && k == point_at,
            seen_digit ==> 0 <= digit_at < i - from && is_digit(s[digit_at]),
            !seen_digit ==> forall|k: int| 0 <= k < i - from ==> !is_digit(#[trigger] s[k]),
        decreases to - i,
    {
        let c = chars[i];
        assert(c == s[i - from]);
        if c == '.' {
            if seen_point {
                assert(s[point_at] == '.' && s[i - from] == '.');
                return false;
            }
            seen_point = true;
            proof {
                point_at = i - from;
            }
        } else if '0' <= c && c <= '9' {
            seen_digit = true;
            proof {
                digit_at = i - from;
            }
        } else {
            return false;
        }
        i += 1;
    }
    seen_digit
}

/// Whether `chars[from..to]` is a decimal literal.
pub fn check_decimal(chars: &Vec<char>, from: usize, to: usize) -> (r: bool)
    requires
        from <= to <= chars.len(),
    ensures
        r == is_decimal(chars@.subrange(from as int, to as int)),
{
    let ghost s = chars@.subrange(from as int, to as int);
    if from < to && chars[from] == '-' {
        assert(s[0] == '-');
        assert(s.drop_first() =~= chars@.subrange(from + 1, to as int));
        check_unsigned_decimal(chars, from + 1, to)
    } else {
        assert(s.len() > 0 ==> s[0] == chars@[from as int]);
        check_unsigned_decimal(chars, from, to)
    }
}

/// A number of a WKT text: a decimal literal, held as its characters. Nothing
/// is rounded: two numbers are the same when they are written the same.
#[derive(PartialEq, Eq, Debug)]
pub struct Number {
    text: String,
}

impl View for Number {
    type V = Seq<char>;

    /// The literal's characters.
    closed spec fn view(&self) -> Seq<char> {
        self.text@
    }
}

impl Number {
    #[verifier::type_invariant]
    spec fn well_formed(&self) -> bool {
        is_decimal(self.text@)
    }

    /// The number that `s` writes, if `s` is a decimal literal.
    pub fn from_str(s: &str) -> (r: Option<Number>)
        ensures
            r is Some <==> is_decimal(s@),
            r matches Some(n) ==> n@ == s@,
    {
        let chars = to_chars(s);
        assert(chars@.subrange(0, chars@.len() as int) =~= chars@);
        Number::from_chars(&chars, 0, chars.len())
    }

    /// The number that `chars[from..to]` writes, if that is a decimal literal.
    pub fn from_chars(chars: &Vec<char>, from: usize, to: usize) -> (r: Option<Number>)
        requires
            from <= to <= chars.len(),
        ensures
            r is Some <==> is_decimal(chars@.subrange(from as int, to as int)),
            r matches Some(n) ==> n@ == chars@.subrange(from as int, to as int),
    {
        if check_decimal(chars, from, to) {
            Some(Number { text: from_chars(chars, from, to) })
        } else {
            None
        }
    }

    /// The literal, as text. It is always a decimal literal.
    pub fn as_str(&self) -> (s: &str)
        ensures
            s@ == self@,
            is_decimal(s@),
    {
        proof {
            use_type_invariant(self);
        }
        self.text.as_str()
    }
}

impl Default for Number {
    /// Zero, written `0`.
    fn default() -> (zero: Number)
        ensures
            zero@ == "0"@,
    {
        proof {
            reveal_strlit("0");
        }
        Number { text: String::from_str("0") }
    }
}

impl Clone for Number {
    fn clone(&self) -> (r: Self)
        ensures
            r@ == self@,
    {
        proof {
            use_type_invariant(self);
        }
        Number { text: self.text.clone() }
    }
}

} // verus!
