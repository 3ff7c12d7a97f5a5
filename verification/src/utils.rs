//! Character-level helpers shared by both parsers: whitespace and token
//! classification, and the `\u` escape decoder with its surrogate handling.

use vstd::prelude::*;

use crate::convert::char_from_u32;
use crate::convert::string_from_chars;
use crate::errors::MawuError;
use crate::errors::MawuInternalError;

verus! {

/// Whether two string slices hold the same characters.
pub fn str_eq(a: &str, b: &str) -> (r: bool)
    ensures
        r == (a@ == b@),
{
    let an = a.unicode_len();
    let bn = b.unicode_len();
    if an != bn {
        return false;
    }
    let mut i: usize = 0;
    while i < an
        invariant
            i <= an,
            an == a@.len(),
            an == b@.len(),
            forall|j: int| 0 <= j < i ==> a@[j] == b@[j],
        decreases an - i,
    {
        if a.get_char(i) != b.get_char(i) {
            return false;
        }
        i = i + 1;
    }
    proof {
        assert(a@ =~= b@);
    }
    true
}

/// Whether the character opens or continues a record separator.
pub open spec fn is_newline_char(c: char) -> bool {
    c == '\n' || c == '\r'
}

/// Whether the text is one record separator: `\n`, `\r\n` or `\r`.
pub open spec fn is_newline_text(s: Seq<char>) -> bool {
    s == seq!['\n'] || s == seq!['\r', '\n'] || s == seq!['\r']
}

/// Whether the character counts as blank between tokens: space, tab, or a
/// record separator character.
pub open spec fn is_ws_char(c: char) -> bool {
    c == ' ' || c == '\t' || is_newline_char(c)
}

/// Whether the character ends a JSON primitive token: one of the four
/// structural characters.
pub open spec fn is_structural_char(c: char) -> bool {
    c == ',' || c == ':' || c == '}' || c == ']'
}

/// Builds a run of spaces of the given length.
pub fn make_whitespace(n: usize) -> (r: String)
    ensures
        r@ == Seq::new(n as nat, |i: int| ' '),
{
    let mut out: Vec<char> = Vec::new();
    let mut i: usize = 0;
    while i < n
        invariant
            i <= n,
            out@ == Seq::new(i as nat, |j: int| ' '),
        decreases n - i,
    {
        out.push(' ');
        i = i + 1;
        proof {
            assert(out@ =~= Seq::new(i as nat, |j: int| ' '));
        }
    }
    string_from_chars(&out)
}

/// Whether the text is one record separator: `\n`, `\r\n` or `\r`.
pub fn is_newline(s: &str) -> (r: bool)
    ensures
        r == is_newline_text(s@),
{
    let n = s.unicode_len();
    if n == 1 {
        let c = s.get_char(0);
        proof {
            if c == '\n' {
                assert(s@ =~= seq!['\n']);
            }
            if c == '\r' {
                assert(s@ =~= seq!['\r']);
            }
        }
        c == '\n' || c == '\r'
    } else if n == 2 {
        let c0 = s.get_char(0);
        let c1 = s.get_char(1);
        proof {
            if c0 == '\r' && c1 == '\n' {
                assert(s@ =~= seq!['\r', '\n']);
            }
        }
        c0 == '\r' && c1 == '\n'
    } else {
        false
    }
}

/// Whether the text begins with an ASCII digit; empty text is an internal
/// error.
pub fn is_digit(c: &str) -> (r: Result<bool, MawuError>)
    ensures
        match r {
            Ok(b) => c@.len() > 0 && b == crate::numbers::is_digit_char(c@[0]),
            Err(e) => c@.len() == 0 && e == MawuError::InternalError(
                MawuInternalError::StringWithNoChars,
            ),
        },
{
    if c.unicode_len() == 0 {
        return Err(MawuError::InternalError(MawuInternalError::StringWithNoChars));
    }
    let ch = c.get_char(0);
    let cv = ch as u32;
    Ok(48 <= cv && cv <= 57)
}

/// Whether the text is one of the four characters that end a JSON
/// primitive token.
pub fn is_end_of_primitive_value(c: &str) -> (r: bool)
    ensures
        r == (c@.len() == 1 && is_structural_char(c@[0])),
{
    if c.unicode_len() != 1 {
        return false;
    }
    let ch = c.get_char(0);
    ch == ',' || ch == ':' || ch == '}' || ch == ']'
}

/// Whether the text is blank between tokens: a record separator, a space
/// or a tab.
pub fn is_whitespace(c: &str) -> (r: bool)
    ensures
        r == (is_newline_text(c@) || c@ == seq![' '] || c@ == seq!['\t']),
{
    if is_newline(c) {
        return true;
    }
    if c.unicode_len() != 1 {
        return false;
    }
    let ch = c.get_char(0);
    proof {
        if ch == ' ' {
            assert(c@ =~= seq![' ']);
        }
        if ch == '\t' {
            assert(c@ =~= seq!['\t']);
        }
    }
    ch == ' ' || ch == '\t'
}

/// Whether the lookahead character ends a JSON string token: one of the
/// four structural characters; no character at all does not.
pub fn is_json_string_terminator_token(c: Option<&char>) -> (r: bool)
    ensures
        r == match c {
            Some(ch) => is_structural_char(*ch),
            None => false,
        },
{
    match c {
        Some(ch) => *ch == ':' || *ch == ',' || *ch == '}' || *ch == ']',
        None => false,
    }
}

/// The numeric value of a hexadecimal digit of either case, and 16 for
/// every other character.
pub open spec fn hex_digit(c: char) -> int {
    if 48 <= c as u32 <= 57 {
        c as u32 - 48
    } else if 97 <= c as u32 <= 102 {
        c as u32 - 87
    } else if 65 <= c as u32 <= 70 {
        c as u32 - 55
    } else {
        16
    }
}

/// Whether the character is a hexadecimal digit of either case.
pub open spec fn is_hex_char(c: char) -> bool {
    hex_digit(c) < 16
}

/// Whether every character of the sequence is a hexadecimal digit.
pub open spec fn all_hex(s: Seq<char>) -> bool {
    forall|i: int| 0 <= i < s.len() ==> is_hex_char(#[trigger] s[i])
}

/// The integer a hexadecimal digit sequence denotes, most significant
/// digit first.
pub open spec fn hex_int(s: Seq<char>) -> int
    decreases s.len(),
{
    if s.len() == 0 {
        0
    } else {
        hex_int(s.drop_last()) * 16 + hex_digit(s.last())
    }
}

proof fn lemma_hex_int_nonneg(s: Seq<char>)
    ensures
        hex_int(s) >= 0,
    decreases s.len(),
{
    if s.len() > 0 {
        lemma_hex_int_nonneg(s.drop_last());
        assert(hex_int(s.drop_last()) * 16 >= 0) by (nonlinear_arith)
            requires
                hex_int(s.drop_last()) >= 0,
        ;
    }
}

/// Reads a hexadecimal digit run as an unsigned value, failing on any
/// non-hex character or on a value above the Unicode code point ceiling.
pub fn read_hex_scalar(s: &Vec<char>) -> (r: Option<u32>)
    ensures
        match r {
            Some(v) => all_hex(s@) && hex_int(s@) == v as int && v <= 0x10FFFF,
            None => !all_hex(s@) || hex_int(s@) > 0x10FFFF,
        },
{
    let mut acc: u32 = 0;
    let mut i: usize = 0;
    while i < s.len()
        invariant
            i <= s@.len(),
            all_hex(s@.subrange(0, i as int)),
            acc as int == hex_int(s@.subrange(0, i as int)),
            acc <= 0x10FFFF,
        decreases s@.len() - i,
    {
        let c = s[i];
        let cv = c as u32;
        let ghost pre = s@.subrange(0, i as int);
        let ghost cur = s@.subrange(0, i as int + 1);
        proof {
            assert(cur.drop_last() =~= pre);
            assert(cur.last() == s@[i as int]);
        }
        let d: u32 = if 48 <= cv && cv <= 57 {
            cv - 48
        } else if 97 <= cv && cv <= 102 {
            cv - 87
        } else if 65 <= cv && cv <= 70 {
            cv - 55
        } else {
            assert(!is_hex_char(s@[i as int]));
            return None;
        };
        proof {
            assert(is_hex_char(cur.last()));
            assert(hex_digit(cur.last()) == d as int);
            assert forall|j: int| 0 <= j < cur.len() implies is_hex_char(#[trigger] cur[j]) by {
                if j < cur.len() - 1 {
                    assert(cur[j] == pre[j]);
                }
            }
            assert(hex_int(cur) == hex_int(pre) * 16 + hex_digit(cur.last()));
        }
        let next = acc * 16 + d;
        if next > 0x10FFFF {
            proof {
                lemma_hex_prefix_le(s@, i as int + 1);
                assert(cur =~= s@.subrange(0, i as int + 1));
            }
            return None;
        }
        acc = next;
        i = i + 1;
    }
    proof {
        assert(s@.subrange(0, i as int) =~= s@);
    }
    Some(acc)
}

proof fn lemma_hex_prefix_le(s: Seq<char>, k: int)
    requires
        0 <= k <= s.len(),
    ensures
        hex_int(s.subrange(0, k)) <= hex_int(s),
    decreases s.len() - k,
{
    if k < s.len() {
        lemma_hex_prefix_le(s, k + 1);
        let a = s.subrange(0, k);
        let b = s.subrange(0, k + 1);
        assert(b.drop_last() =~= a);
        lemma_hex_int_nonneg(a);
        assert(hex_int(b) == hex_int(a) * 16 + hex_digit(b.last()));
        assert(hex_int(a) * 16 >= hex_int(a)) by (nonlinear_arith)
            requires
                hex_int(a) >= 0,
        ;
        assert(hex_digit(b.last()) >= 0);
    } else {
        assert(s.subrange(0, k) =~= s);
    }
}

/// Four hexadecimal digits stay below the sixteen-bit ceiling.
pub proof fn lemma_hex4_bound(s: Seq<char>)
    requires
        all_hex(s),
        s.len() == 4,
    ensures
        0 <= hex_int(s) <= 0xFFFF,
{
    let s3 = s.drop_last();
    let s2 = s3.drop_last();
    let s1 = s2.drop_last();
    let s0 = s1.drop_last();
    assert(s3[0] == s[0] && s3[1] == s[1] && s3[2] == s[2]);
    assert(s2[0] == s[0] && s2[1] == s[1]);
    assert(s1[0] == s[0]);
    assert(s0.len() == 0);
    assert(hex_int(s0) == 0);
    assert(s1.last() == s[0] && s2.last() == s[1] && s3.last() == s[2] && s.last() == s[3]);
    assert(0 <= hex_digit(s1.last()) <= 15);
    assert(0 <= hex_digit(s2.last()) <= 15);
    assert(0 <= hex_digit(s3.last()) <= 15);
    assert(0 <= hex_digit(s.last()) <= 15);
    assert(hex_int(s1) == hex_int(s0) * 16 + hex_digit(s1.last()));
    assert(hex_int(s2) == hex_int(s1) * 16 + hex_digit(s2.last()));
    assert(hex_int(s3) == hex_int(s2) * 16 + hex_digit(s3.last()));
    assert(hex_int(s) == hex_int(s3) * 16 + hex_digit(s.last()));
}

/// Whether the code point is a Unicode scalar value: in range and not a
/// surrogate.
pub open spec fn is_scalar_value(v: int) -> bool {
    (0 <= v < 0xD800) || (0xE000 <= v <= 0x10FFFF)
}

/// Whether the code point is a high surrogate.
pub open spec fn is_high_surrogate(v: int) -> bool {
    0xD800 <= v < 0xDC00
}

/// Whether the code point is a low surrogate.
pub open spec fn is_low_surrogate(v: int) -> bool {
    0xDC00 <= v < 0xE000
}

/// The scalar value a surrogate pair encodes.
pub open spec fn surrogate_pair_value(hi: int, lo: int) -> int {
    0x10000 + (hi - 0xD800) * 0x400 + (lo - 0xDC00)
}

/// What decoding a `\u` escape yields. The first text carries the digits
/// of the escape itself; the second the digits of the escape that follows,
/// or nothing. A scalar value decodes alone; a high surrogate must be
/// followed by a low surrogate and the pair decodes to one combined
/// character, consuming the second escape; everything else is an error.
pub open spec fn spec_unescape_unicode(s: Seq<char>, next: Seq<char>) -> Result<
    (Seq<char>, bool),
    MawuError,
> {
    let bad = Result::<(Seq<char>, bool), MawuError>::Err(
        MawuError::InternalError(
            MawuInternalError::UnableToUnescapeUnicode(
                if s.len() > 0 {
                    s[0]
                } else {
                    'u'
                },
            ),
        ),
    );
    if !all_hex(s) || hex_int(s) > 0x10FFFF {
        bad
    } else {
        let v = hex_int(s);
        if is_scalar_value(v) {
            Ok((Seq::new(1, |i: int| char_of_scalar(v)), false))
        } else if !is_high_surrogate(v) || next.len() == 0 {
            bad
        } else if !all_hex(next) || hex_int(next) > 0x10FFFF || !is_low_surrogate(
            hex_int(next),
        ) {
            bad
        } else {
            Ok(
                (
                    Seq::new(1, |i: int| char_of_scalar(surrogate_pair_value(v, hex_int(next)))),
                    true,
                ),
            )
        }
    }
}

/// The character with the given scalar value.
pub open spec fn char_of_scalar(v: int) -> char
    recommends
        is_scalar_value(v),
{
    choose|c: char| (#[trigger] (c as u32)) == v
}

/// A character pins its scalar value: for a valid scalar value there is
/// exactly one character carrying it.
pub proof fn lemma_char_of_scalar(c: char)
    ensures
        char_of_scalar(c as u32 as int) == c,
{
    let v = c as u32 as int;
    let w = char_of_scalar(v);
    assert(c as u32 == v);
    assert(w as u32 == v);
    assert(w == c) by {
        vstd::utf8::char_u32_cast(c, c as u32);
        vstd::utf8::char_u32_cast(w, w as u32);
    }
}

/// Decodes a `\u` escape: the escape's own hexadecimal digits, and those
/// of the escape that follows it, which a surrogate pair consumes.
pub fn unescape_unicode(s: &str, next_codepoint: &str) -> (r: Result<(String, bool), MawuError>)
    ensures
        match r {
            Ok(p) => spec_unescape_unicode(s@, next_codepoint@) == Ok::<_, MawuError>(
                (p.0@, p.1),
            ),
            Err(e) => spec_unescape_unicode(s@, next_codepoint@) == Err::<(Seq<char>, bool), _>(
                e,
            ),
        },
{
    let s_chars = crate::convert::chars_of(s);
    let next_chars = crate::convert::chars_of(next_codepoint);
    match unescape_unicode_chars(&s_chars, &next_chars) {
        Ok((c, used)) => {
            let mut one: Vec<char> = Vec::new();
            one.push(c);
            let out = string_from_chars(&one);
            proof {
                assert(out@ =~= Seq::new(1, |i: int| c));
            }
            Ok((out, used))
        },
        Err(e) => Err(e),
    }
}

/// Decodes a `\u` escape from character vectors, yielding the decoded
/// character and whether the following escape was consumed.
pub fn unescape_unicode_chars(s: &Vec<char>, next: &Vec<char>) -> (r: Result<
    (char, bool),
    MawuError,
>)
    ensures
        match r {
            Ok(p) => spec_unescape_unicode(s@, next@) == Ok::<_, MawuError>(
                (Seq::new(1, |i: int| p.0), p.1),
            ),
            Err(e) => spec_unescape_unicode(s@, next@) == Err::<(Seq<char>, bool), _>(e),
        },
{
    let bad: MawuError = MawuError::InternalError(
        MawuInternalError::UnableToUnescapeUnicode(
            if s.len() > 0 {
                s[0]
            } else {
                'u'
            },
        ),
    );
    let v = match read_hex_scalar(s) {
        Some(v) => v,
        None => {
            return Err(bad);
        },
    };
    if v < 0xD800 || (0xE000 <= v && v <= 0x10FFFF) {
        match char_from_u32(v) {
            Some(c) => {
                proof {
                    lemma_char_of_scalar(c);
                    assert(Seq::new(1, |i: int| c) =~= Seq::new(
                        1,
                        |i: int| char_of_scalar(hex_int(s@)),
                    ));
                }
                return Ok((c, false));
            },
            None => {
                return Err(bad);
            },
        }
    }
    if !(v < 0xDC00) || next.len() == 0 {
        return Err(bad);
    }
    let lo = match read_hex_scalar(next) {
        Some(lo) => lo,
        None => {
            return Err(bad);
        },
    };
    if !(0xDC00 <= lo && lo < 0xE000) {
        return Err(bad);
    }
    let combined: u32 = 0x10000 + (v - 0xD800) * 0x400 + (lo - 0xDC00);
    match char_from_u32(combined) {
        Some(c) => {
            proof {
                lemma_char_of_scalar(c);
                assert(Seq::new(1, |i: int| c) =~= Seq::new(
                    1,
                    |i: int| char_of_scalar(surrogate_pair_value(hex_int(s@), hex_int(next@))),
                ));
            }
            Ok((c, true))
        },
        None => Err(bad),
    }
}

} // verus!
