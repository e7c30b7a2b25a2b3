//! Numbers as the reports write them: decimal literals and plain integers.
//!
//! A measured value is kept as the text of its literal, borrowed from the
//! report. The literal is what tells a value that is present from one that is
//! missing; turning it into a machine number is left to the caller.

use vstd::prelude::*;
use vstd::string::StringSliceAdditionalSpecFns;

verus! {

pub open spec fn is_digit(b: u8) -> bool {
    0x30 <= b <= 0x39
}

pub open spec fn is_sign(b: u8) -> bool {
    b == 0x2b || b == 0x2d
}

/// Offset just past the run of digits that starts at `from`.
pub open spec fn digits_end(s: Seq<u8>, from: int) -> int
    decreases s.len() - from,
{
    if 0 <= from < s.len() && is_digit(s[from]) {
        digits_end(s, from + 1)
    } else {
        from
    }
}

/// The byte with an ASCII capital letter turned into its small letter.
pub open spec fn small_letter(b: u8) -> u8 {
    if 0x41 <= b <= 0x5a {
        (b + 0x20) as u8
    } else {
        b
    }
}

/// From offset `from` to its end, `s` spells `word`, in capital or small
/// letters. `word` is written in small letters.
pub open spec fn spells(s: Seq<u8>, from: int, word: Seq<u8>) -> bool {
    &&& 0 <= from
    &&& s.len() - from == word.len()
    &&& forall|k: int| 0 <= k < word.len() ==> small_letter(s[from + k]) == #[trigger] word[k]
}

/// From offset `from` to its end, `s` is an exponent: the letter `e` or `E`,
/// an optional sign, and one or more digits.
pub open spec fn is_exponent(s: Seq<u8>, from: int) -> bool {
    let digits = if from + 1 < s.len() && is_sign(s[from + 1]) {
        from + 2
    } else {
        from + 1
    };
    &&& 0 <= from < s.len()
    &&& (s[from] == 0x65 || s[from] == 0x45)
    &&& digits < digits_end(s, digits)
    &&& digits_end(s, digits) == s.len()
}

/// From offset `from` to its end, `s` is a decimal number: digits with at most
/// one point among them, at least one digit in all, and an optional exponent.
pub open spec fn is_decimal(s: Seq<u8>, from: int) -> bool {
    let whole_end = digits_end(s, from);
    let point = whole_end < s.len() && s[whole_end] == 0x2e;
    let mantissa_end = if point {
        digits_end(s, whole_end + 1)
    } else {
        whole_end
    };
    let digits = if point {
        mantissa_end - from - 1
    } else {
        mantissa_end - from
    };
    &&& 0 <= from
    &&& digits > 0
    &&& (mantissa_end == s.len() || is_exponent(s, mantissa_end))
}

/// `s` is a literal of a floating-point number: an optional sign, then a
/// decimal number or one of the words `inf`, `infinity` and `nan`. Nothing
/// may stand before or after it, white space included.
pub open spec fn is_float_literal(s: Seq<u8>) -> bool {
    let from: int = if s.len() > 0 && is_sign(s[0]) {
        1
    } else {
        0
    };
    ||| is_decimal(s, from)
    ||| spells(s, from, "inf".spec_bytes())
    ||| spells(s, from, "infinity".spec_bytes())
    ||| spells(s, from, "nan".spec_bytes())
}

/// Every byte of `s` is a digit.
pub open spec fn all_digits(s: Seq<u8>) -> bool {
    forall|i: int| 0 <= i < s.len() ==> is_digit(#[trigger] s[i])
}

/// The number that a string of digits writes in base ten.
pub open spec fn digits_value(s: Seq<u8>) -> int
    decreases s.len(),
{
    if s.len() == 0 {
        0
    } else {
        digits_value(s.drop_last()) * 10 + (s.last() - 0x30)
    }
}

/// The integer that `s` writes: an optional sign and one or more digits. A
/// minus sign is read only where `signed` allows it.
pub open spec fn integer_value(s: Seq<u8>, signed: bool) -> Option<int> {
    let sign = s.len() > 0 && (s[0] == 0x2b || (signed && s[0] == 0x2d));
    let digits = if sign {
        s.subrange(1, s.len() as int)
    } else {
        s
    };
    if digits.len() > 0 && all_digits(digits) {
        if sign && s[0] == 0x2d {
            Some(-digits_value(digits))
        } else {
            Some(digits_value(digits))
        }
    } else {
        None
    }
}

/// The `i32` that `s` writes, where it writes an integer that fits.
pub open spec fn i32_value(s: Seq<u8>) -> Option<i32> {
    match integer_value(s, true) {
        Some(v) => if i32::MIN <= v <= i32::MAX {
            Some(v as i32)
        } else {
            None
        },
        None => None,
    }
}

/// The `u32` that `s` writes, where it writes an integer that fits.
pub open spec fn u32_value(s: Seq<u8>) -> Option<u32> {
    match integer_value(s, false) {
        Some(v) => if v <= u32::MAX {
            Some(v as u32)
        } else {
            None
        },
        None => None,
    }
}

/// A longer string of digits writes no smaller number.
pub proof fn lemma_digits_value_grows(s: Seq<u8>, k: int)
    requires
        0 <= k <= s.len(),
        all_digits(s),
    ensures
        0 <= digits_value(s.take(k)) <= digits_value(s),
    decreases s.len() - k,
{
    if k == 0 {
        assert(s.take(0).len() == 0);
        lemma_digits_value_nonnegative(s);
    } else if k == s.len() {
        assert(s.take(k) =~= s);
        lemma_digits_value_nonnegative(s);
    } else {
        lemma_digits_value_grows(s, k + 1);
        lemma_digits_value_nonnegative(s.take(k));
        assert(s.take(k + 1).drop_last() =~= s.take(k));
        assert(is_digit(s[k]));
    }
}

proof fn lemma_digits_value_nonnegative(s: Seq<u8>)
    requires
        all_digits(s),
    ensures
        0 <= digits_value(s),
    decreases s.len(),
{
    if s.len() > 0 {
        lemma_digits_value_nonnegative(s.drop_last());
        assert(is_digit(s[s.len() - 1]));
    }
}

fn digit(b: u8) -> (r: bool)
    ensures
        r == is_digit(b),
{
    0x30 <= b && b <= 0x39
}

fn sign(b: u8) -> (r: bool)
    ensures
        r == is_sign(b),
{
    b == 0x2b || b == 0x2d
}

fn skip_digits(s: &[u8], from: usize) -> (r: usize)
    requires
        from <= s.len(),
    ensures
        r == digits_end(s@, from as int),
        from <= r <= s.len(),
        forall|i: int| from <= i < r ==> is_digit(#[trigger] s@[i]),
{
    let mut i: usize = from;
    while i < s.len() && digit(s[i])
        invariant
            from <= i <= s.len(),
            digits_end(s@, from as int) == digits_end(s@, i as int),
            forall|j: int| from <= j < i ==> is_digit(#[trigger] s@[j]),
        decreases s.len() - i,
    {
        i += 1;
    }
    i
}

fn spells_word(s: &[u8], from: usize, word: &[u8]) -> (r: bool)
    requires
        from <= s.len(),
    ensures
        r == spells(s@, from as int, word@),
{
    if s.len() - from != word.len() {
        return false;
    }
    let mut k: usize = 0;
    while k < word.len()
        invariant
            from <= s.len(),
            s.len() - from == word.len(),
            k <= word.len(),
            forall|j: int| 0 <= j < k ==> small_letter(s@[from + j]) == #[trigger] word@[j],
        decreases word.len() - k,
    {
        let b: u8 = s[from + k];
        let small: u8 = if 0x41 <= b && b <= 0x5a {
            b + 0x20
        } else {
            b
        };
        if small != word[k] {
            return false;
        }
        k += 1;
    }
    true
}

fn exponent_at(s: &[u8], from: usize) -> (r: bool)
    requires
        from <= s.len(),
    ensures
        r == is_exponent(s@, from as int),
{
    if from >= s.len() || !(s[from] == 0x65 || s[from] == 0x45) {
        return false;
    }
    let digits: usize = if s.len() - from > 1 && sign(s[from + 1]) {
        from + 2
    } else {
        from + 1
    };
    let end: usize = skip_digits(s, digits);
    digits < end && end == s.len()
}

fn decimal_at(s: &[u8], from: usize) -> (r: bool)
    requires
        from <= s.len(),
    ensures
        r == is_decimal(s@, from as int),
{
    let whole_end: usize = skip_digits(s, from);
    let point: bool = whole_end < s.len() && s[whole_end] == 0x2e;
    let mantissa_end: usize = if point {
        skip_digits(s, whole_end + 1)
    } else {
        whole_end
    };
    let digits: usize = if point {
        mantissa_end - from - 1
    } else {
        mantissa_end - from
    };
    digits > 0 && (mantissa_end == s.len() || exponent_at(s, mantissa_end))
}

/// Tells whether `s` is a literal of a floating-point number.
pub fn float_literal(s: &[u8]) -> (r: bool)
    ensures
        r == is_float_literal(s@),
{
    let from: usize = if s.len() > 0 && sign(s[0]) {
        1
    } else {
        0
    };
    decimal_at(s, from) || spells_word(s, from, "inf".as_bytes()) || spells_word(
        s,
        from,
        "infinity".as_bytes(),
    ) || spells_word(s, from, "nan".as_bytes())
}

/// Reads the magnitude of an integer from the digits of `s` from `from` on.
/// Gives `None` where there is no digit, where another byte stands among
/// them, or where the number is above `limit`.
fn parse_digits(s: &[u8], from: usize, limit: u64) -> (r: Option<u64>)
    requires
        from <= s.len(),
        limit <= 0xffff_ffff,
    ensures
        ({
            let digits = s@.subrange(from as int, s@.len() as int);
            &&& r is Some <==> digits.len() > 0 && all_digits(digits) && digits_value(digits)
                <= limit
            &&& r matches Some(v) ==> v == digits_value(digits) && v <= limit
        }),
{
    let ghost digits = s@.subrange(from as int, s@.len() as int);
    if from == s.len() {
        return None;
    }
    let mut value: u64 = 0;
    let mut i: usize = from;
    while i < s.len()
        invariant
            from <= i <= s.len(),
            limit <= 0xffff_ffff,
            digits == s@.subrange(from as int, s@.len() as int),
            all_digits(digits.take(i - from)),
            value == digits_value(digits.take(i - from)),
            value <= limit,
        decreases s.len() - i,
    {
        let b: u8 = s[i];
        if !digit(b) {
            proof {
                assert(digits[i - from] == b);
            }
            return None;
        }
        let ghost longer = digits.take(i - from + 1);
        proof {
            assert(longer.drop_last() =~= digits.take(i - from));
            assert(longer.last() == b);
            assert forall|j: int| 0 <= j < longer.len() implies is_digit(#[trigger] longer[j]) by {
                if j < i - from {
                    assert(digits.take(i - from)[j] == longer[j]);
                }
            }
        }
        let next: u64 = value * 10 + (b - 0x30) as u64;
        if next > limit {
            proof {
                if all_digits(digits) {
                    lemma_digits_value_grows(digits, i - from + 1);
                }
            }
            return None;
        }
        value = next;
        i += 1;
    }
    proof {
        assert(digits.take(i - from) =~= digits);
    }
    Some(value)
}

/// Reads an `i32` written as an optional sign and one or more digits.
pub fn parse_i32(s: &[u8]) -> (r: Option<i32>)
    ensures
        r == i32_value(s@),
{
    let negative: bool = s.len() > 0 && s[0] == 0x2d;
    let from: usize = if s.len() > 0 && sign(s[0]) {
        1
    } else {
        0
    };
    proof {
        if from == 0 {
            assert(s@.subrange(0, s@.len() as int) =~= s@);
        }
    }
    if negative {
        match parse_digits(s, from, 0x8000_0000) {
            Some(v) => Some((-(v as i64)) as i32),
            None => None,
        }
    } else {
        match parse_digits(s, from, 0x7fff_ffff) {
            Some(v) => Some(v as i32),
            None => None,
        }
    }
}

/// Reads a `u32` written as an optional plus sign and one or more digits.
pub fn parse_u32(s: &[u8]) -> (r: Option<u32>)
    ensures
        r == u32_value(s@),
{
    let from: usize = if s.len() > 0 && s[0] == 0x2b {
        1
    } else {
        0
    };
    proof {
        if from == 0 {
            assert(s@.subrange(0, s@.len() as int) =~= s@);
        }
    }
    match parse_digits(s, from, 0xffff_ffff) {
        Some(v) => Some(v as u32),
        None => None,
    }
}

/// A value that a report states: the text of a floating-point literal.
#[derive(Clone, Copy, Debug, PartialEq, Eq)]
pub struct Number<'a> {
    text: &'a [u8],
}

impl<'a> View for Number<'a> {
    type V = Seq<u8>;

    closed spec fn view(&self) -> Seq<u8> {
        self.text@
    }
}

impl<'a> Number<'a> {
    #[verifier::type_invariant]
    closed spec fn is_literal(&self) -> bool {
        is_float_literal(self.text@)
    }

    /// Takes `text` as a value where it is a floating-point literal.
    pub fn read(text: &'a [u8]) -> (r: Option<Number<'a>>)
        ensures
            r is Some <==> is_float_literal(text@),
            r matches Some(n) ==> n@ == text@,
    {
        if float_literal(text) {
            Some(Number { text })
        } else {
            None
        }
    }

    /// The literal.
    pub fn as_bytes(&self) -> (r: &'a [u8])
        ensures
            r@ == self@,
            is_float_literal(r@),
    {
        proof {
            use_type_invariant(self);
        }
        self.text
    }
}

/// The literal of a value that may be missing.
pub open spec fn literal_of(value: Option<Number>) -> Option<Seq<u8>> {
    match value {
        Some(n) => Some(n@),
        None => None,
    }
}

/// The literals of a list of values that may be missing.
pub open spec fn literals(values: Seq<Option<Number>>) -> Seq<Option<Seq<u8>>> {
    Seq::new(values.len(), |i: int| literal_of(values[i]))
}

} // verus!
