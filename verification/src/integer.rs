//! Whole numbers in decimal, as they stand in form fields.

use vstd::prelude::*;
use crate::text;

verus! {

/// Why a text is no whole number of 64 bits.
#[derive(Clone, Copy, Debug, PartialEq, Eq, Structural)]
pub enum IntegerError {
    Empty,
    InvalidDigit,
    TooLarge,
    TooSmall,
}

impl IntegerError {
    /// The fault in words.
    pub open spec fn words(self) -> Seq<char> {
        match self {
            IntegerError::Empty => "cannot parse integer from empty string"@,
            IntegerError::InvalidDigit => "invalid digit found in string"@,
            IntegerError::TooLarge => "number too large to fit in target type"@,
            IntegerError::TooSmall => "number too small to fit in target type"@,
        }
    }

    /// The fault in words.
    pub fn message(&self) -> (r: String)
        ensures
            r@ == self.words(),
    {
        match self {
            IntegerError::Empty => "cannot parse integer from empty string".to_string(),
            IntegerError::InvalidDigit => "invalid digit found in string".to_string(),
            IntegerError::TooLarge => "number too large to fit in target type".to_string(),
            IntegerError::TooSmall => "number too small to fit in target type".to_string(),
        }
    }
}

/// Whether `c` is a decimal digit.
pub open spec fn is_digit(c: char) -> bool {
    '0' <= c <= '9'
}

/// The value of a row of decimal digits.
pub open spec fn decimal(s: Seq<char>) -> int
    decreases s.len(),
{
    if s.len() == 0 {
        0
    } else {
        decimal(s.drop_last()) * 10 + (s.last() as int - '0' as int)
    }
}

/// `v`, negated if `negative`.
pub open spec fn signed(negative: bool, v: int) -> int {
    if negative {
        -v
    } else {
        v
    }
}

/// What reading the digits of `s` from index `i` on gives: the first character
/// that is no digit, or that makes the number too large or too small, is the fault.
pub open spec fn read_digits(s: Seq<char>, negative: bool, i: int) -> Result<i64, IntegerError>
    decreases s.len() - i,
{
    if i >= s.len() {
        Ok(signed(negative, decimal(s)) as i64)
    } else if !is_digit(s[i]) {
        Err(IntegerError::InvalidDigit)
    } else if signed(negative, decimal(s.take(i + 1))) > i64::MAX {
        Err(IntegerError::TooLarge)
    } else if signed(negative, decimal(s.take(i + 1))) < i64::MIN {
        Err(IntegerError::TooSmall)
    } else {
        read_digits(s, negative, i + 1)
    }
}

/// What a text is as a whole number: a sign or none, then one or more digits.
pub open spec fn read_integer(s: Seq<char>) -> Result<i64, IntegerError> {
    if s.len() == 0 {
        Err(IntegerError::Empty)
    } else if s[0] == '-' || s[0] == '+' {
        if s.len() == 1 {
            Err(IntegerError::InvalidDigit)
        } else {
            read_digits(s.skip(1), s[0] == '-', 0)
        }
    } else {
        read_digits(s, false, 0)
    }
}

/// Reads the digits of `v` from index `from` on.
fn parse_digits(v: &Vec<char>, from: usize, negative: bool) -> (r: Result<i64, IntegerError>)
    requires
        from <= v@.len(),
    ensures
        r == read_digits(v@.skip(from as int), negative, 0),
{
    let ghost s = v@.skip(from as int);
    let mut n: i64 = 0;
    let mut i: usize = from;
    assert(s.take(0) =~= Seq::empty());
    while i < v.len()
        invariant
            from <= i <= v@.len(),
            s == v@.skip(from as int),
            read_digits(s, negative, 0) == read_digits(s, negative, i - from),
            n == signed(negative, decimal(s.take(i - from))),
            negative ==> n <= 0,
            !negative ==> n >= 0,
        decreases v@.len() - i,
    {
        let c = v[i];
        let ghost k = i - from;
        assert(s[k] == c);
        assert(s.take(k + 1).drop_last() =~= s.take(k));
        assert(s.take(k + 1).last() == c);
        if c < '0' || c > '9' {
            return Err(IntegerError::InvalidDigit);
        }
        let d: i64 = (c as u32 - '0' as u32) as i64;
        if negative {
            if n < -922337203685477580 || (n == -922337203685477580 && d > 8) {
                return Err(IntegerError::TooSmall);
            }
            n = n * 10 - d;
        } else {
            if n > 922337203685477580 || (n == 922337203685477580 && d > 7) {
                return Err(IntegerError::TooLarge);
            }
            n = n * 10 + d;
        }
        i += 1;
    }
    assert(s.take(s.len() as int) =~= s);
    Ok(n)
}

/// Reads a text as a whole number: a sign or none, then one or more digits.
pub fn parse_integer(s: &str) -> (r: Result<i64, IntegerError>)
    ensures
        r == read_integer(s@),
{
    let v = text::chars_of(s);
    if v.len() == 0 {
        Err(IntegerError::Empty)
    } else if v[0] == '-' || v[0] == '+' {
        if v.len() == 1 {
            Err(IntegerError::InvalidDigit)
        } else {
            parse_digits(&v, 1, v[0] == '-')
        }
    } else {
        assert(v@.skip(0) =~= v@);
        parse_digits(&v, 0, false)
    }
}

/// The value of a row of digits grows with every digit.
pub proof fn lemma_decimal_grows(s: Seq<char>, i: int)
    requires
        0 <= i <= s.len(),
        forall|k: int| 0 <= k < s.len() ==> is_digit(#[trigger] s[k]),
    ensures
        0 <= decimal(s.take(i)) <= decimal(s),
    decreases s.len(),
{
    if i == s.len() {
        assert(s.take(i) =~= s);
        if i > 0 {
            lemma_decimal_grows(s.drop_last(), i - 1);
            assert(is_digit(s[i - 1]));
        }
    } else {
        lemma_decimal_grows(s.drop_last(), i);
        assert(s.drop_last().take(i) =~= s.take(i));
        assert(is_digit(s[s.len() - 1]));
    }
}

/// A row of digits, read from `i` on, is read as its value exactly when the
/// signed value fits in 64 bits.
pub proof fn lemma_digits_read(s: Seq<char>, negative: bool, i: int)
    requires
        0 <= i <= s.len(),
        forall|k: int| 0 <= k < s.len() ==> is_digit(#[trigger] s[k]),
        i == s.len() ==> i64::MIN <= signed(negative, decimal(s)) <= i64::MAX,
    ensures
        i64::MIN <= signed(negative, decimal(s)) <= i64::MAX ==> read_digits(s, negative, i) == Ok::<
            i64,
            IntegerError,
        >(signed(negative, decimal(s)) as i64),
        signed(negative, decimal(s)) > i64::MAX ==> read_digits(s, negative, i) == Err::<
            i64,
            IntegerError,
        >(IntegerError::TooLarge),
        signed(negative, decimal(s)) < i64::MIN ==> read_digits(s, negative, i) == Err::<
            i64,
            IntegerError,
        >(IntegerError::TooSmall),
    decreases s.len() - i,
{
    if i < s.len() {
        assert(is_digit(s[i]));
        lemma_decimal_grows(s, i + 1);
        if i + 1 == s.len() {
            assert(s.take(i + 1) =~= s);
            if i64::MIN <= signed(negative, decimal(s)) <= i64::MAX {
                lemma_digits_read(s, negative, i + 1);
            }
        } else {
            lemma_digits_read(s, negative, i + 1);
        }
    }
}

} // verus!
