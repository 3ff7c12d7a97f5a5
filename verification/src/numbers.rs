//! Decimal integer reading and writing on character sequences, and the
//! bit-level classification of 64-bit floats.
//!
//! The integer readers mirror the host's own integer parsing: an optional
//! sign, one or more ASCII digits, and failure on anything else or on a
//! value out of range.

use vstd::prelude::*;

verus! {

/// The numeric value of an ASCII digit, and 10 for every other character.
pub open spec fn char_digit(c: char) -> int {
    if 48 <= c as u32 <= 57 {
        c as u32 - 48
    } else {
        10
    }
}

/// Whether the character is an ASCII digit.
pub open spec fn is_digit_char(c: char) -> bool {
    48 <= c as u32 <= 57
}

/// Whether every character of the sequence is an ASCII digit.
pub open spec fn all_digits(s: Seq<char>) -> bool {
    forall|i: int| 0 <= i < s.len() ==> is_digit_char(#[trigger] s[i])
}

/// The integer a digit sequence denotes, most significant digit first.
pub open spec fn digits_int(s: Seq<char>) -> int
    decreases s.len(),
{
    if s.len() == 0 {
        0
    } else {
        digits_int(s.drop_last()) * 10 + char_digit(s.last())
    }
}

/// What parsing the text as an unsigned 64-bit integer yields: an optional
/// `+`, then one or more digits denoting a value within range.
pub open spec fn spec_parse_u64(s: Seq<char>) -> Option<u64> {
    let body = if s.len() > 0 && s[0] == '+' {
        s.subrange(1, s.len() as int)
    } else {
        s
    };
    if body.len() > 0 && all_digits(body) && digits_int(body) <= u64::MAX as int {
        Some(digits_int(body) as u64)
    } else {
        None
    }
}

/// What parsing the text as a signed 64-bit integer yields: an optional
/// sign, then one or more digits denoting a value within range.
pub open spec fn spec_parse_i64(s: Seq<char>) -> Option<i64> {
    if s.len() == 0 {
        None
    } else {
        let neg = s[0] == '-';
        let body = if s[0] == '-' || s[0] == '+' {
            s.subrange(1, s.len() as int)
        } else {
            s
        };
        if body.len() > 0 && all_digits(body) {
            let v = if neg {
                -digits_int(body)
            } else {
                digits_int(body)
            };
            if i64::MIN as int <= v <= i64::MAX as int {
                Some(v as i64)
            } else {
                None
            }
        } else {
            None
        }
    }
}

proof fn lemma_digits_int_nonneg(s: Seq<char>)
    ensures
        digits_int(s) >= 0,
    decreases s.len(),
{
    if s.len() > 0 {
        lemma_digits_int_nonneg(s.drop_last());
        assert(digits_int(s.drop_last()) * 10 >= 0) by (nonlinear_arith)
            requires
                digits_int(s.drop_last()) >= 0,
        ;
    }
}

proof fn lemma_digits_prefix_le(s: Seq<char>, k: int)
    requires
        0 <= k <= s.len(),
    ensures
        digits_int(s.subrange(0, k)) <= digits_int(s),
    decreases s.len() - k,
{
    if k < s.len() {
        lemma_digits_prefix_le(s, k + 1);
        let a = s.subrange(0, k);
        let b = s.subrange(0, k + 1);
        assert(b.drop_last() =~= a);
        lemma_digits_int_nonneg(a);
        assert(digits_int(b) == digits_int(a) * 10 + char_digit(b.last()));
        assert(digits_int(a) * 10 >= digits_int(a)) by (nonlinear_arith)
            requires
                digits_int(a) >= 0,
        ;
        assert(char_digit(b.last()) >= 0);
    } else {
        assert(s.subrange(0, k) =~= s);
    }
}

/// Reads the digit run of `s` from index `from` to the end as an unsigned
/// value, failing on any non-digit or on overflow.
fn read_digits(s: &Vec<char>, from: usize) -> (r: Option<u64>)
    requires
        from <= s@.len(),
    ensures
        ({
            let body = s@.subrange(from as int, s@.len() as int);
            match r {
                Some(v) => body.len() > 0 && all_digits(body) && digits_int(body) == v as int,
                None => body.len() == 0 || !all_digits(body) || digits_int(body) > u64::MAX as int,
            }
        }),
{
    let ghost body = s@.subrange(from as int, s@.len() as int);
    if from == s.len() {
        return None;
    }
    let mut acc: u64 = 0;
    let mut i: usize = from;
    while i < s.len()
        invariant
            from <= i <= s@.len(),
            body == s@.subrange(from as int, s@.len() as int),
            all_digits(s@.subrange(from as int, i as int)),
            acc as int == digits_int(s@.subrange(from as int, i as int)),
        decreases s@.len() - i,
    {
        let c = s[i];
        let cv = c as u32;
        let ghost pre = s@.subrange(from as int, i as int);
        let ghost cur = s@.subrange(from as int, i as int + 1);
        proof {
            assert(cur.drop_last() =~= pre);
            assert(cur.last() == s@[i as int]);
        }
        if cv < 48 || cv > 57 {
            assert(!is_digit_char(body[i - from]));
            return None;
        }
        let d = (cv - 48) as u64;
        proof {
            assert(is_digit_char(cur.last()));
            assert(char_digit(cur.last()) == d as int);
            assert forall|j: int| 0 <= j < cur.len() implies is_digit_char(#[trigger] cur[j]) by {
                if j < cur.len() - 1 {
                    assert(cur[j] == pre[j]);
                }
            }
            assert(digits_int(cur) == digits_int(pre) * 10 + char_digit(cur.last()));
        }
        if acc > (u64::MAX - d) / 10 {
            assert(acc as int * 10 + d as int > u64::MAX as int) by (nonlinear_arith)
                requires
                    acc as int > (u64::MAX as int - d as int) / 10,
                    0 <= d as int <= 9,
            ;
            proof {
                assert(cur =~= body.subrange(0, i - from + 1));
                lemma_digits_prefix_le(body, i as int - from + 1);
                lemma_digits_int_nonneg(pre);
            }
            return None;
        }
        proof {
            assert(acc as int * 10 + d as int <= u64::MAX as int) by (nonlinear_arith)
                requires
                    acc as int <= (u64::MAX as int - d as int) / 10,
                    0 <= d as int <= 9,
            ;
        }
        acc = acc * 10 + d;
        i = i + 1;
    }
    proof {
        assert(s@.subrange(from as int, i as int) =~= body);
    }
    Some(acc)
}

/// Parses the text as an unsigned 64-bit integer, exactly as the host's
/// integer parser does: an optional `+`, then digits, within range.
pub fn parse_u64_text(s: &Vec<char>) -> (r: Option<u64>)
    ensures
        r == spec_parse_u64(s@),
{
    let start: usize = if s.len() > 0 && s[0] == '+' {
        1
    } else {
        0
    };
    proof {
        if s@.len() > 0 && s@[0] == '+' {
            assert(s@.subrange(1, s@.len() as int) =~= s@.subrange(
                start as int,
                s@.len() as int,
            ));
        } else {
            assert(s@ =~= s@.subrange(start as int, s@.len() as int));
        }
        if all_digits(s@.subrange(start as int, s@.len() as int)) {
            lemma_digits_int_nonneg(s@.subrange(start as int, s@.len() as int));
        }
    }
    read_digits(s, start)
}

/// Parses the text as a signed 64-bit integer, exactly as the host's
/// integer parser does: an optional sign, then digits, within range.
pub fn parse_i64_text(s: &Vec<char>) -> (r: Option<i64>)
    ensures
        r == spec_parse_i64(s@),
{
    if s.len() == 0 {
        return None;
    }
    let neg = s[0] == '-';
    let start: usize = if s[0] == '-' || s[0] == '+' {
        1
    } else {
        0
    };
    proof {
        if s@[0] == '-' || s@[0] == '+' {
            assert(s@.subrange(1, s@.len() as int) =~= s@.subrange(
                start as int,
                s@.len() as int,
            ));
        } else {
            assert(s@ =~= s@.subrange(start as int, s@.len() as int));
        }
        if all_digits(s@.subrange(start as int, s@.len() as int)) {
            lemma_digits_int_nonneg(s@.subrange(start as int, s@.len() as int));
        }
    }
    let mag = read_digits(s, start);
    match mag {
        Option::None => None,
        Option::Some(m) => {
            if neg {
                if m <= i64::MAX as u64 {
                    Some((0 - (m as i64)) as i64)
                } else if m == 9223372036854775808u64 {
                    Some(i64::MIN)
                } else {
                    None
                }
            } else {
                if m <= i64::MAX as u64 {
                    Some(m as i64)
                } else {
                    None
                }
            }
        },
    }
}

/// The decimal digit character for one digit value.
pub open spec fn digit_char_of(d: int) -> char
    recommends
        0 <= d <= 9,
{
    if d <= 0 {
        '0'
    } else if d == 1 {
        '1'
    } else if d == 2 {
        '2'
    } else if d == 3 {
        '3'
    } else if d == 4 {
        '4'
    } else if d == 5 {
        '5'
    } else if d == 6 {
        '6'
    } else if d == 7 {
        '7'
    } else if d == 8 {
        '8'
    } else {
        '9'
    }
}

/// The decimal digit text of a natural number, most significant first.
pub open spec fn digits_of(n: int) -> Seq<char>
    decreases n,
{
    if n <= 0 {
        seq![digit_char_of(0)]
    } else if n < 10 {
        seq![digit_char_of(n)]
    } else {
        digits_of(n / 10).push(digit_char_of(n % 10))
    }
}

/// The decimal text of a signed value: a `-` before the digit text of the
/// magnitude for negative values.
pub open spec fn int_text_of(v: int) -> Seq<char> {
    if v < 0 {
        seq!['-'] + digits_of(-v)
    } else {
        digits_of(v)
    }
}

/// Writes the decimal digit text of an unsigned 64-bit value.
pub fn u64_digits(n: u64) -> (r: Vec<char>)
    ensures
        r@ == digits_of(n as int),
    decreases n,
{
    if n < 10 {
        let mut out: Vec<char> = Vec::new();
        out.push(char_of_digit(n as u8));
        proof {
            assert(out@ =~= seq![digit_char_of(n as int)]);
        }
        out
    } else {
        let mut out = u64_digits(n / 10);
        out.push(char_of_digit((n % 10) as u8));
        proof {
            assert(out@ =~= digits_of(n as int / 10).push(digit_char_of(n as int % 10)));
        }
        out
    }
}

/// Writes the decimal text of a signed 64-bit value.
pub fn i64_text(n: i64) -> (r: Vec<char>)
    ensures
        r@ == int_text_of(n as int),
{
    if n >= 0 {
        u64_digits(n as u64)
    } else {
        let mag: u64 = if n == i64::MIN {
            9223372036854775808u64
        } else {
            (0 - n) as u64
        };
        let digits = u64_digits(mag);
        let mut out: Vec<char> = Vec::new();
        out.push('-');
        let mut i: usize = 0;
        while i < digits.len()
            invariant
                i <= digits@.len(),
                out@ == seq!['-'] + digits@.subrange(0, i as int),
            decreases digits@.len() - i,
        {
            out.push(digits[i]);
            i = i + 1;
            proof {
                assert(out@ =~= seq!['-'] + digits@.subrange(0, i as int));
            }
        }
        proof {
            assert(digits@.subrange(0, digits@.len() as int) =~= digits@);
            assert(out@ =~= seq!['-'] + digits_of(-(n as int)));
        }
        out
    }
}

/// The exponent field of an IEEE-754 64-bit pattern.
pub open spec fn float_exp_field(b: u64) -> u64 {
    (b >> 52) & 0x7ff
}

/// The fraction field of an IEEE-754 64-bit pattern.
pub open spec fn float_frac_field(b: u64) -> u64 {
    b & 0xfffffffffffff
}

/// Whether the bit pattern is a NaN.
pub open spec fn float_is_nan(b: u64) -> bool {
    float_exp_field(b) == 0x7ff && float_frac_field(b) != 0
}

/// Whether the bit pattern is one of the two infinities.
pub open spec fn float_is_infinite(b: u64) -> bool {
    float_exp_field(b) == 0x7ff && float_frac_field(b) == 0
}

/// Whether the bit pattern is a zero of either sign.
pub open spec fn float_is_zero(b: u64) -> bool {
    float_exp_field(b) == 0 && float_frac_field(b) == 0
}

/// Whether the bit pattern is a normal number: neither zero, subnormal,
/// infinite nor NaN.
pub open spec fn float_is_normal(b: u64) -> bool {
    float_exp_field(b) != 0 && float_exp_field(b) != 0x7ff
}

/// Whether the 64-bit float with this pattern compares below zero: its sign
/// bit is set and it is neither a zero nor a NaN.
pub open spec fn float_below_zero(b: u64) -> bool {
    (b >> 63) == 1 && !float_is_zero(b) && !float_is_nan(b)
}

/// Reads the exponent and fraction fields of an IEEE-754 64-bit pattern.
fn float_fields(b: u64) -> (r: (u64, u64))
    ensures
        r.0 == float_exp_field(b),
        r.1 == float_frac_field(b),
{
    ((b >> 52) & 0x7ff, b & 0xfffffffffffff)
}

/// Whether the bit pattern is a NaN or an infinity.
pub fn float_non_finite(b: u64) -> (r: bool)
    ensures
        r == (float_is_nan(b) || float_is_infinite(b)),
{
    let (exp, _frac) = float_fields(b);
    exp == 0x7ff
}

/// Whether the bit pattern is a zero of either sign.
pub fn float_zero(b: u64) -> (r: bool)
    ensures
        r == float_is_zero(b),
{
    let (exp, frac) = float_fields(b);
    exp == 0 && frac == 0
}

/// Whether the bit pattern is a normal number.
pub fn float_normal(b: u64) -> (r: bool)
    ensures
        r == float_is_normal(b),
{
    let (exp, _frac) = float_fields(b);
    exp != 0 && exp != 0x7ff
}

/// Whether the 64-bit float with this pattern compares below zero.
pub fn float_negative(b: u64) -> (r: bool)
    ensures
        r == float_below_zero(b),
{
    let (exp, frac) = float_fields(b);
    (b >> 63) == 1 && !(exp == 0 && frac == 0) && !(exp == 0x7ff && frac != 0)
}

/// The digit character of one digit value, as executable code.
fn char_of_digit(d: u8) -> (c: char)
    requires
        d <= 9,
    ensures
        c == digit_char_of(d as int),
        is_digit_char(c),
{
    match d {
        0 => '0',
        1 => '1',
        2 => '2',
        3 => '3',
        4 => '4',
        5 => '5',
        6 => '6',
        7 => '7',
        8 => '8',
        _ => '9',
    }
}

} // verus!
