//! The JSON parser: recursive descent over a character sequence, dispatching
//! on one lookahead character after skipping blanks between tokens.
//!
//! Every executable function mirrors a specification function on the
//! character sequence exactly, so what the parser returns is pinned down for
//! every input.

use vstd::prelude::*;

use crate::errors::JsonError;
use crate::errors::JsonParseError;
use crate::errors::MawuError;
use crate::mawu_value::entries_model;
use crate::mawu_value::entries_find;
use crate::mawu_value::entries_put;
use crate::mawu_value::scalar_model_of_text;
use crate::mawu_value::MawuValue;
use crate::mawu_value::ValueModel;
use crate::numbers::is_digit_char;
use crate::utils::all_hex;
use crate::utils::char_of_scalar;
use crate::utils::hex_int;
use crate::utils::is_high_surrogate;
use crate::utils::is_low_surrogate;
use crate::utils::is_scalar_value;
use crate::utils::is_structural_char;
use crate::utils::is_ws_char;
use crate::utils::read_hex_scalar;
use crate::utils::surrogate_pair_value;

verus! {

/// One step of the value grammar: a parsed value with the position after
/// it, or the error that ended the parse.
pub enum JsonStep {
    Value(ValueModel, int),
    Fail(JsonParseError),
}

/// One step of the string grammar: the decoded text with the position after
/// the closing quote, or the error that ended the parse.
pub enum TextStep {
    Done(Seq<char>, int),
    Fail(JsonParseError),
}

/// One step of the number grammar: the accumulated token text with the
/// position of its terminator, or the error that ended the parse.
pub enum TokenStep {
    Done(Seq<char>, int),
    Fail(JsonParseError),
}

/// The first position at or after `i` holding no blank character.
pub open spec fn spec_skip_ws(s: Seq<char>, i: int) -> int
    decreases s.len() - i,
{
    if 0 <= i < s.len() && is_ws_char(s[i]) {
        spec_skip_ws(s, i + 1)
    } else {
        i
    }
}

/// The first non-blank position, never before `i` itself: the form of
/// [`spec_skip_ws`] that the grammar functions use, so that each recursion
/// visibly moves forward.
pub open spec fn spec_ws(s: Seq<char>, i: int) -> int {
    let j = spec_skip_ws(s, i);
    if j >= i {
        j
    } else {
        i
    }
}

/// The continuation position after a sub-parse: `n` where it moved past
/// `i` and stayed within the text, and the nearest legal position where it
/// did not, so that each recursion visibly moves forward.
pub open spec fn adv_pos(s: Seq<char>, i: int, n: int) -> int {
    let lo = if n > i {
        n
    } else {
        i + 1
    };
    if lo > s.len() {
        s.len() as int
    } else {
        lo
    }
}

/// What scanning a JSON string body from `i` (just after a quote) yields:
/// text up to the next unescaped quote, with the eight fixed escapes, `\u`
/// code units and surrogate pairs decoded; a bare control character, an
/// unknown escape, a lone surrogate or the end of input is an error.
pub open spec fn spec_json_string(s: Seq<char>, i: int) -> TextStep
    decreases s.len() - i, 1int,
{
    if i < 0 || i >= s.len() {
        TextStep::Fail(JsonParseError::UnterminatedQuote)
    } else if s[i] == '"' {
        TextStep::Done(Seq::empty(), i + 1)
    } else if s[i] == '\\' {
        if i + 1 >= s.len() {
            TextStep::Fail(JsonParseError::UnexpectedEndOfFile)
        } else {
            let c = s[i + 1];
            if c == 'u' {
                spec_json_unicode_escape(s, i)
            } else if c == '"' || c == '\\' || c == '/' || c == 'b' || c == 'f' || c == 'n'
                || c == 'r' || c == 't' {
                match spec_json_string(s, i + 2) {
                    TextStep::Done(text, next) => TextStep::Done(seq![escape_char(c)] + text, next),
                    TextStep::Fail(e) => TextStep::Fail(e),
                }
            } else {
                TextStep::Fail(JsonParseError::InvalidEscapeSequence(c))
            }
        }
    } else if (s[i] as u32) < 0x20 {
        TextStep::Fail(JsonParseError::UnescapedCharacter(s[i]))
    } else {
        match spec_json_string(s, i + 1) {
            TextStep::Done(text, next) => TextStep::Done(seq![s[i]] + text, next),
            TextStep::Fail(e) => TextStep::Fail(e),
        }
    }
}

/// The character a single-character escape stands for.
pub open spec fn escape_char(c: char) -> char {
    if c == 'b' {
        '\u{0008}'
    } else if c == 'f' {
        '\u{000C}'
    } else if c == 'n' {
        '\n'
    } else if c == 'r' {
        '\r'
    } else if c == 't' {
        '\t'
    } else {
        c
    }
}

/// What decoding a `\uXXXX` escape at `i` (`s[i]` is the backslash) yields:
/// a scalar code unit decodes alone; a high surrogate must be followed at
/// once by an escaped low surrogate and the pair decodes to one combined
/// character; anything else is a fatal escape error.
pub open spec fn spec_json_unicode_escape(s: Seq<char>, i: int) -> TextStep
    decreases s.len() - i, 0int,
{
    if i + 6 > s.len() {
        TextStep::Fail(JsonParseError::InvalidEscapeSequence('u'))
    } else {
        let hex = s.subrange(i + 2, i + 6);
        if !all_hex(hex) {
            TextStep::Fail(JsonParseError::InvalidEscapeSequence('u'))
        } else {
            let v = hex_int(hex);
            if is_scalar_value(v) {
                match spec_json_string(s, i + 6) {
                    TextStep::Done(text, next) => TextStep::Done(seq![char_of_scalar(v)] + text, next),
                    TextStep::Fail(e) => TextStep::Fail(e),
                }
            } else if is_high_surrogate(v) {
                if i + 12 > s.len() || s[i + 6] != '\\' || s[i + 7] != 'u' {
                    TextStep::Fail(JsonParseError::InvalidEscapeSequence('u'))
                } else {
                    let hex2 = s.subrange(i + 8, i + 12);
                    if !all_hex(hex2) || !is_low_surrogate(hex_int(hex2)) {
                        TextStep::Fail(JsonParseError::InvalidEscapeSequence('u'))
                    } else {
                        match spec_json_string(s, i + 12) {
                            TextStep::Done(text, next) => TextStep::Done(
                                seq![char_of_scalar(surrogate_pair_value(v, hex_int(hex2)))]
                                    + text,
                                next,
                            ),
                            TextStep::Fail(e) => TextStep::Fail(e),
                        }
                    }
                }
            } else {
                TextStep::Fail(JsonParseError::InvalidEscapeSequence('u'))
            }
        }
    }
}

/// Whether the character may continue a number token without a look at its
/// neighbour: a digit or the decimal point.
pub open spec fn is_number_body_char(c: char) -> bool {
    is_digit_char(c) || c == '.'
}

/// What scanning number characters from `i` yields: the token text up to a
/// structural terminator, blank or end of input. An exponent marker takes
/// an explicit sign with it, or gains a `+` before a bare digit; any other
/// character is a fatal error.
pub open spec fn spec_number_chars(s: Seq<char>, i: int) -> TokenStep
    decreases s.len() - i,
{
    if i < 0 || i >= s.len() {
        TokenStep::Done(Seq::empty(), i)
    } else {
        let c = s[i];
        if is_structural_char(c) || is_ws_char(c) {
            TokenStep::Done(Seq::empty(), i)
        } else if is_number_body_char(c) {
            match spec_number_chars(s, i + 1) {
                TokenStep::Done(text, next) => TokenStep::Done(seq![c] + text, next),
                TokenStep::Fail(e) => TokenStep::Fail(e),
            }
        } else if c == 'e' || c == 'E' {
            if i + 1 < s.len() && (s[i + 1] == '+' || s[i + 1] == '-') {
                match spec_number_chars(s, i + 2) {
                    TokenStep::Done(text, next) => TokenStep::Done(seq![c, s[i + 1]] + text, next),
                    TokenStep::Fail(e) => TokenStep::Fail(e),
                }
            } else if i + 1 < s.len() && is_digit_char(s[i + 1]) {
                match spec_number_chars(s, i + 1) {
                    TokenStep::Done(text, next) => TokenStep::Done(seq![c, '+'] + text, next),
                    TokenStep::Fail(e) => TokenStep::Fail(e),
                }
            } else {
                TokenStep::Fail(JsonParseError::InvalidCharacter(c))
            }
        } else {
            TokenStep::Fail(JsonParseError::InvalidCharacter(c))
        }
    }
}

/// What parsing one JSON value at `i` yields: after skipping blanks, the
/// lookahead character picks an object, array, string, number or literal;
/// `NaN` and `Infinity` spellings are a dedicated numeric error, a
/// structural character in value position is a structural-token error, and
/// exhausted input is an end-of-file error.
pub open spec fn spec_json_value(s: Seq<char>, i: int) -> JsonStep
    decreases s.len() - i, 0int,
{
    let j = spec_ws(s, i);
    if j >= s.len() {
        JsonStep::Fail(JsonParseError::UnexpectedEndOfFile)
    } else {
        let c = s[j];
        if c == '{' {
            spec_json_object(s, j + 1, Seq::empty())
        } else if c == '[' {
            spec_json_array(s, j + 1, Seq::empty())
        } else if (c == 'N' || c == 'n') && j + 2 < s.len() && s[j + 1] == 'a' && (s[j + 2] == 'N'
            || s[j + 2] == 'n') {
            JsonStep::Fail(JsonParseError::InvalidNumber(c))
        } else if (c == 'I' || c == 'i') && j + 2 < s.len() && s[j + 1] == 'n' && s[j + 2]
            == 'f' {
            JsonStep::Fail(JsonParseError::InvalidNumber(c))
        } else if c == 't' && j + 3 < s.len() && s[j + 1] == 'r' && s[j + 2] == 'u' && s[j + 3]
            == 'e' {
            JsonStep::Value(ValueModel::Bool(true), j + 4)
        } else if c == 'f' && j + 4 < s.len() && s[j + 1] == 'a' && s[j + 2] == 'l' && s[j + 3]
            == 's' && s[j + 4] == 'e' {
            JsonStep::Value(ValueModel::Bool(false), j + 5)
        } else if c == 'n' && j + 3 < s.len() && s[j + 1] == 'u' && s[j + 2] == 'l' && s[j + 3]
            == 'l' {
            JsonStep::Value(ValueModel::Null, j + 4)
        } else if is_structural_char(c) {
            JsonStep::Fail(JsonParseError::InvalidStructuralToken(c))
        } else if c == '"' {
            match spec_json_string(s, j + 1) {
                TextStep::Done(text, next) => JsonStep::Value(ValueModel::Text(text), next),
                TextStep::Fail(e) => JsonStep::Fail(e),
            }
        } else if c == '-' || is_digit_char(c) {
            match spec_number_chars(s, j + 1) {
                TokenStep::Done(text, next) => JsonStep::Value(
                    scalar_model_of_text(seq![c] + text),
                    next,
                ),
                TokenStep::Fail(e) => JsonStep::Fail(e),
            }
        } else {
            JsonStep::Fail(JsonParseError::InvalidCharacter(c))
        }
    }
}

/// What parsing object members at `i` (just inside the braces) yields: a
/// loop of string key, colon and value, with commas skipped, a duplicate
/// key overwriting the earlier value, `}` closing the object, a non-string
/// key rejected, and exhausted input an expected-end-of-object error.
pub open spec fn spec_json_object(
    s: Seq<char>,
    i: int,
    acc: Seq<(Seq<char>, ValueModel)>,
) -> JsonStep
    decreases s.len() - i, 1int,
{
    let j = spec_ws(s, i);
    if j >= s.len() {
        JsonStep::Fail(JsonParseError::ExpectedEndOfObject)
    } else if s[j] == '}' {
        JsonStep::Value(ValueModel::Object(acc), j + 1)
    } else if s[j] == ',' {
        spec_json_object(s, j + 1, acc)
    } else if s[j] == '"' {
        match spec_json_string(s, j + 1) {
            TextStep::Done(key, k) => {
                let m = spec_ws(s, k);
                if m >= s.len() || s[m] != ':' {
                    JsonStep::Fail(JsonParseError::ExpectedColon)
                } else {
                    match spec_json_value(s, adv_pos(s, i, m + 1)) {
                        JsonStep::Value(v, n) => spec_json_object(
                            s,
                            adv_pos(s, i, n),
                            entries_put(acc, key, v),
                        ),
                        JsonStep::Fail(e) => JsonStep::Fail(e),
                    }
                }
            },
            TextStep::Fail(e) => JsonStep::Fail(e),
        }
    } else {
        JsonStep::Fail(JsonParseError::ExpectedKey)
    }
}

/// What parsing array elements at `i` (just inside the brackets) yields: a
/// loop of values with commas skipped, `]` closing the array, and
/// exhausted input an end-of-file error.
pub open spec fn spec_json_array(s: Seq<char>, i: int, acc: Seq<ValueModel>) -> JsonStep
    decreases s.len() - i, 1int,
{
    let j = spec_ws(s, i);
    if j >= s.len() {
        JsonStep::Fail(JsonParseError::UnexpectedEndOfFile)
    } else if s[j] == ']' {
        JsonStep::Value(ValueModel::Array(acc), j + 1)
    } else if s[j] == ',' {
        spec_json_array(s, j + 1, acc)
    } else {
        match spec_json_value(s, j) {
            JsonStep::Value(v, n) => spec_json_array(s, adv_pos(s, i, n), acc.push(v)),
            JsonStep::Fail(e) => JsonStep::Fail(e),
        }
    }
}

/// What the whole JSON parse of a text yields: the empty input is the null
/// value by deliberate relaxation; otherwise the first value decides and
/// what follows it is ignored.
pub open spec fn spec_json(s: Seq<char>) -> Result<ValueModel, MawuError> {
    if s.len() == 0 {
        Ok(ValueModel::Null)
    } else {
        match spec_json_value(s, 0) {
            JsonStep::Value(v, next) => Ok(v),
            JsonStep::Fail(e) => Err(MawuError::JsonError(JsonError::ParseError(e))),
        }
    }
}

/// Whether the character is blank between tokens, as executable code.
fn ws_char(c: char) -> (r: bool)
    ensures
        r == is_ws_char(c),
{
    c == ' ' || c == '\t' || c == '\n' || c == '\r'
}

/// Whether the character is structural, as executable code.
fn structural_char(c: char) -> (r: bool)
    ensures
        r == is_structural_char(c),
{
    c == ',' || c == ':' || c == '}' || c == ']'
}

/// Whether the character is an ASCII digit, as executable code.
fn digit_char(c: char) -> (r: bool)
    ensures
        r == is_digit_char(c),
{
    let v = c as u32;
    48 <= v && v <= 57
}

/// Moves the cursor past blanks between tokens.
fn skip_ws(s: &Vec<char>, pos: usize) -> (r: usize)
    requires
        pos <= s@.len(),
    ensures
        r as int == spec_ws(s@, pos as int),
        pos <= r <= s@.len(),
        r < s@.len() ==> !is_ws_char(s@[r as int]),
{
    let mut i: usize = pos;
    while i < s.len() && ws_char(s[i])
        invariant
            pos <= i <= s@.len(),
            spec_skip_ws(s@, pos as int) == spec_skip_ws(s@, i as int),
        decreases s@.len() - i,
    {
        i = i + 1;
    }
    i
}

/// Scans a JSON string body, the cursor standing just after the opening
/// quote, and decodes every escape.
fn json_string_lexer(s: &Vec<char>, pos: usize) -> (r: Result<(String, usize), JsonParseError>)
    requires
        pos <= s@.len(),
    ensures
        match r {
            Ok(p) => spec_json_string(s@, pos as int) == TextStep::Done(p.0@, p.1 as int)
                && pos < p.1 <= s@.len(),
            Err(e) => spec_json_string(s@, pos as int) == TextStep::Fail(e),
        },
{
    let mut acc: Vec<char> = Vec::new();
    let mut i: usize = pos;
    loop
        invariant
            pos <= i <= s@.len(),
            spec_json_string(s@, i as int) is Done ==> spec_json_string(s@, pos as int)
                == TextStep::Done(
                acc@ + spec_json_string(s@, i as int)->Done_0,
                spec_json_string(s@, i as int)->Done_1,
            ),
            spec_json_string(s@, i as int) is Fail ==> spec_json_string(s@, pos as int)
                == spec_json_string(s@, i as int),
        decreases s@.len() - i,
    {
        let ghost iold = i as int;
        if i == s.len() {
            return Err(JsonParseError::UnterminatedQuote);
        }
        let c = s[i];
        let ghost acc0 = acc@;
        if c == '"' {
            let out = crate::convert::string_from_chars(&acc);
            proof {
                assert(acc@ + Seq::<char>::empty() =~= acc@);
            }
            return Ok((out, i + 1));
        }
        if c == '\\' {
            if i + 1 == s.len() {
                return Err(JsonParseError::UnexpectedEndOfFile);
            }
            let e = s[i + 1];
            if e == 'u' {
                proof {
                    assert(spec_json_string(s@, i as int) == spec_json_unicode_escape(
                        s@,
                        i as int,
                    ));
                }
                if s.len() - i < 6 {
                    return Err(JsonParseError::InvalidEscapeSequence('u'));
                }
                let mut hx: Vec<char> = Vec::new();
                hx.push(s[i + 2]);
                hx.push(s[i + 3]);
                hx.push(s[i + 4]);
                hx.push(s[i + 5]);
                proof {
                    assert(hx@ =~= s@.subrange(i as int + 2, i as int + 6));
                }
                let v = match crate::utils::read_hex_scalar(&hx) {
                    Some(v) => v,
                    None => {
                        proof {
                            if crate::utils::all_hex(hx@) {
                                crate::utils::lemma_hex4_bound(hx@);
                            }
                        }
                        return Err(JsonParseError::InvalidEscapeSequence('u'));
                    },
                };
                proof {
                    crate::utils::lemma_hex4_bound(hx@);
                }
                if v < 0xD800 || 0xE000 <= v {
                    let c2 = match crate::convert::char_from_u32(v) {
                        Some(c2) => c2,
                        None => {
                            return Err(JsonParseError::InvalidEscapeSequence('u'));
                        },
                    };
                    proof {
                        crate::utils::lemma_char_of_scalar(c2);
                        assert(char_of_scalar(hex_int(s@.subrange(iold + 2, iold + 6))) == c2);
                    }
                    acc.push(c2);
                    i = i + 6;
                    proof {
                        lemma_step_text(s@, pos as int, iold, i as int, acc0, seq![c2]);
                        assert(acc@ =~= acc0 + seq![c2]);
                    }
                    continue ;
                }
                if !(v < 0xDC00) || s.len() - i < 12 {
                    return Err(JsonParseError::InvalidEscapeSequence('u'));
                }
                if !(s[i + 6] == '\\' && s[i + 7] == 'u') {
                    return Err(JsonParseError::InvalidEscapeSequence('u'));
                }
                let mut hx2: Vec<char> = Vec::new();
                hx2.push(s[i + 8]);
                hx2.push(s[i + 9]);
                hx2.push(s[i + 10]);
                hx2.push(s[i + 11]);
                proof {
                    assert(hx2@ =~= s@.subrange(i as int + 8, i as int + 12));
                }
                let lo = match crate::utils::read_hex_scalar(&hx2) {
                    Some(lo) => lo,
                    None => {
                        proof {
                            if crate::utils::all_hex(hx2@) {
                                crate::utils::lemma_hex4_bound(hx2@);
                            }
                        }
                        return Err(JsonParseError::InvalidEscapeSequence('u'));
                    },
                };
                if !(0xDC00 <= lo && lo < 0xE000) {
                    return Err(JsonParseError::InvalidEscapeSequence('u'));
                }
                let combined: u32 = 0x10000 + (v - 0xD800) * 0x400 + (lo - 0xDC00);
                let c2 = match crate::convert::char_from_u32(combined) {
                    Some(c2) => c2,
                    None => {
                        return Err(JsonParseError::InvalidEscapeSequence('u'));
                    },
                };
                proof {
                    crate::utils::lemma_char_of_scalar(c2);
                    assert(char_of_scalar(
                        surrogate_pair_value(
                            hex_int(s@.subrange(iold + 2, iold + 6)),
                            hex_int(s@.subrange(iold + 8, iold + 12)),
                        ),
                    ) == c2);
                }
                acc.push(c2);
                i = i + 12;
                proof {
                    lemma_step_text(s@, pos as int, iold, i as int, acc0, seq![c2]);
                    assert(acc@ =~= acc0 + seq![c2]);
                }
                continue ;
            }
            if e == '"' || e == '\\' || e == '/' || e == 'b' || e == 'f' || e == 'n' || e == 'r'
                || e == 't' {
                let d: char = if e == 'b' {
                    '\u{0008}'
                } else if e == 'f' {
                    '\u{000C}'
                } else if e == 'n' {
                    '\n'
                } else if e == 'r' {
                    '\r'
                } else if e == 't' {
                    '\t'
                } else {
                    e
                };
                acc.push(d);
                i = i + 2;
                proof {
                    lemma_step_text(s@, pos as int, iold, i as int, acc0, seq![d]);
                    assert(acc@ =~= acc0 + seq![d]);
                }
                continue ;
            }
            return Err(JsonParseError::InvalidEscapeSequence(e));
        }
        if (c as u32) < 0x20 {
            return Err(JsonParseError::UnescapedCharacter(c));
        }
        acc.push(c);
        i = i + 1;
        proof {
            lemma_step_text(s@, pos as int, iold, i as int, acc0, seq![c]);
            assert(acc@ =~= acc0 + seq![c]);
        }
    }
}

/// Taking one decoded step keeps the loop equation of the string scanner:
/// where the scan from the new cursor yields the rest, the scan from the
/// start yields what was already decoded followed by the rest.
proof fn lemma_step_text(s: Seq<char>, pos: int, iold: int, inew: int, acc0: Seq<char>, piece: Seq<char>)
    requires
        spec_json_string(s, iold) is Done ==> spec_json_string(s, pos) == TextStep::Done(
            acc0 + spec_json_string(s, iold)->Done_0,
            spec_json_string(s, iold)->Done_1,
        ),
        spec_json_string(s, iold) is Fail ==> spec_json_string(s, pos) == spec_json_string(
            s,
            iold,
        ),
        spec_json_string(s, inew) is Done ==> spec_json_string(s, iold) == TextStep::Done(
            piece + spec_json_string(s, inew)->Done_0,
            spec_json_string(s, inew)->Done_1,
        ),
        spec_json_string(s, inew) is Fail ==> spec_json_string(s, iold) == spec_json_string(
            s,
            inew,
        ),
    ensures
        spec_json_string(s, inew) is Done ==> spec_json_string(s, pos) == TextStep::Done(
            (acc0 + piece) + spec_json_string(s, inew)->Done_0,
            spec_json_string(s, inew)->Done_1,
        ),
        spec_json_string(s, inew) is Fail ==> spec_json_string(s, pos) == spec_json_string(
            s,
            inew,
        ),
{
    if spec_json_string(s, inew) is Done {
        assert(acc0 + (piece + spec_json_string(s, inew)->Done_0) =~= (acc0 + piece)
            + spec_json_string(s, inew)->Done_0);
    }
}

/// Taking one accumulated step keeps the loop equation of the number
/// scanner, just as [`lemma_step_text`] does for the string scanner.
proof fn lemma_step_token(
    s: Seq<char>,
    pos: int,
    iold: int,
    inew: int,
    acc0: Seq<char>,
    piece: Seq<char>,
)
    requires
        spec_number_chars(s, iold) is Done ==> spec_number_chars(s, pos) == TokenStep::Done(
            acc0 + spec_number_chars(s, iold)->Done_0,
            spec_number_chars(s, iold)->Done_1,
        ),
        spec_number_chars(s, iold) is Fail ==> spec_number_chars(s, pos) == spec_number_chars(
            s,
            iold,
        ),
        spec_number_chars(s, inew) is Done ==> spec_number_chars(s, iold) == TokenStep::Done(
            piece + spec_number_chars(s, inew)->Done_0,
            spec_number_chars(s, inew)->Done_1,
        ),
        spec_number_chars(s, inew) is Fail ==> spec_number_chars(s, iold) == spec_number_chars(
            s,
            inew,
        ),
    ensures
        spec_number_chars(s, inew) is Done ==> spec_number_chars(s, pos) == TokenStep::Done(
            (acc0 + piece) + spec_number_chars(s, inew)->Done_0,
            spec_number_chars(s, inew)->Done_1,
        ),
        spec_number_chars(s, inew) is Fail ==> spec_number_chars(s, pos) == spec_number_chars(
            s,
            inew,
        ),
{
    if spec_number_chars(s, inew) is Done {
        assert(acc0 + (piece + spec_number_chars(s, inew)->Done_0) =~= (acc0 + piece)
            + spec_number_chars(s, inew)->Done_0);
    }
}

/// Scans the characters of a number token, the cursor standing just after
/// the sign or first digit.
fn json_number_chars(s: &Vec<char>, pos: usize) -> (r: Result<(Vec<char>, usize), JsonParseError>)
    requires
        pos <= s@.len(),
    ensures
        match r {
            Ok(p) => spec_number_chars(s@, pos as int) == TokenStep::Done(p.0@, p.1 as int)
                && pos <= p.1 <= s@.len(),
            Err(e) => spec_number_chars(s@, pos as int) == TokenStep::Fail(e),
        },
{
    let mut acc: Vec<char> = Vec::new();
    let mut i: usize = pos;
    loop
        invariant
            pos <= i <= s@.len(),
            spec_number_chars(s@, i as int) is Done ==> spec_number_chars(s@, pos as int)
                == TokenStep::Done(
                acc@ + spec_number_chars(s@, i as int)->Done_0,
                spec_number_chars(s@, i as int)->Done_1,
            ),
            spec_number_chars(s@, i as int) is Fail ==> spec_number_chars(s@, pos as int)
                == spec_number_chars(s@, i as int),
        decreases s@.len() - i,
    {
        let ghost iold = i as int;
        let ghost acc0 = acc@;
        if i == s.len() {
            proof {
                assert(acc@ + Seq::<char>::empty() =~= acc@);
            }
            return Ok((acc, i));
        }
        let c = s[i];
        if structural_char(c) || ws_char(c) {
            proof {
                assert(acc@ + Seq::<char>::empty() =~= acc@);
            }
            return Ok((acc, i));
        }
        if digit_char(c) || c == '.' {
            acc.push(c);
            i = i + 1;
            proof {
                lemma_step_token(s@, pos as int, iold, i as int, acc0, seq![c]);
                assert(acc@ =~= acc0 + seq![c]);
            }
            continue ;
        }
        if c == 'e' || c == 'E' {
            if i + 1 < s.len() && (s[i + 1] == '+' || s[i + 1] == '-') {
                let sign = s[i + 1];
                acc.push(c);
                acc.push(sign);
                i = i + 2;
                proof {
                    lemma_step_token(s@, pos as int, iold, i as int, acc0, seq![c, sign]);
                    assert(acc@ =~= acc0 + seq![c, sign]);
                }
                continue ;
            }
            if i + 1 < s.len() && digit_char(s[i + 1]) {
                acc.push(c);
                acc.push('+');
                i = i + 1;
                proof {
                    lemma_step_token(s@, pos as int, iold, i as int, acc0, seq![c, '+']);
                    assert(acc@ =~= acc0 + seq![c, '+']);
                }
                continue ;
            }
            return Err(JsonParseError::InvalidCharacter(c));
        }
        return Err(JsonParseError::InvalidCharacter(c));
    }
}

/// Looks up the first entry with the given key.
pub(crate) fn find_entry(entries: &Vec<(String, MawuValue)>, key: &str) -> (r: Option<usize>)
    ensures
        match r {
            Some(i) => entries_find(entries_model(*entries), key@) == i as int && i
                < entries@.len(),
            None => entries_find(entries_model(*entries), key@) == -1,
        },
{
    proof {
        crate::model::lemma_entries_model_len(*entries);
    }
    let ghost em = entries_model(*entries);
    let mut i: usize = 0;
    while i < entries.len()
        invariant
            i <= entries@.len(),
            em == entries_model(*entries),
            em.len() == entries@.len(),
            forall|j: int| 0 <= j < i ==> (#[trigger] em[j]).0 != key@,
        decreases entries@.len() - i,
    {
        proof {
            crate::model::lemma_entries_model_index(*entries, i as int);
        }
        if crate::utils::str_eq(entries[i].0.as_str(), key) {
            proof {
                crate::mawu_value::lemma_entries_find(em, key@);
            }
            return Some(i);
        }
        i = i + 1;
    }
    proof {
        crate::mawu_value::lemma_entries_find(em, key@);
    }
    None
}

/// Writes a key into an entry list: an existing key's value is overwritten
/// in place, and a fresh key is appended at the end.
pub(crate) fn put_entry(entries: &mut Vec<(String, MawuValue)>, key: String, value: MawuValue)
    ensures
        entries_model(*final(entries)) == entries_put(
            entries_model(*old(entries)),
            key@,
            value@,
        ),
{
    let ghost em = entries_model(*old(entries));
    match find_entry(entries, key.as_str()) {
        Some(i) => {
            let _old_pair = entries.remove(i);
            entries.insert(i, (key, value));
            proof {
                crate::model::lemma_entries_model_len(*entries);
                crate::model::lemma_entries_model_len(*old(entries));
                assert forall|j: int|
                    0 <= j < entries@.len() implies #[trigger] entries_model(*entries)[j]
                    == entries_put(em, key@, value@)[j] by {
                    crate::model::lemma_entries_model_index(*entries, j);
                    crate::model::lemma_entries_model_index(*old(entries), j);
                }
                assert(entries_model(*entries) =~= entries_put(em, key@, value@));
            }
        },
        None => {
            entries.push((key, value));
            proof {
                crate::model::lemma_entries_model_len(*entries);
                crate::model::lemma_entries_model_len(*old(entries));
                assert forall|j: int|
                    0 <= j < entries@.len() implies #[trigger] entries_model(*entries)[j]
                    == entries_put(em, key@, value@)[j] by {
                    crate::model::lemma_entries_model_index(*entries, j);
                    if j < entries@.len() - 1 {
                        crate::model::lemma_entries_model_index(*old(entries), j);
                    }
                }
                assert(entries_model(*entries) =~= entries_put(em, key@, value@));
            }
        },
    }
}

/// Parses one JSON value, dispatching on the first character after blanks.
pub fn json_value_lexer(s: &Vec<char>, pos: usize) -> (r: Result<
    (MawuValue, usize),
    JsonParseError,
>)
    requires
        pos <= s@.len(),
    ensures
        match r {
            Ok(p) => spec_json_value(s@, pos as int) == JsonStep::Value(p.0@, p.1 as int) && pos
                < p.1 <= s@.len(),
            Err(e) => spec_json_value(s@, pos as int) == JsonStep::Fail(e),
        },
    decreases s@.len() - pos, 0int,
{
    let j = skip_ws(s, pos);
    if j == s.len() {
        return Err(JsonParseError::UnexpectedEndOfFile);
    }
    let c = s[j];
    if c == '{' {
        return json_object_lexer(s, j + 1);
    }
    if c == '[' {
        return json_array_lexer(s, j + 1);
    }
    if (c == 'N' || c == 'n') && s.len() - j > 2 && s[j + 1] == 'a' && (s[j + 2] == 'N' || s[j
        + 2] == 'n') {
        return Err(JsonParseError::InvalidNumber(c));
    }
    if (c == 'I' || c == 'i') && s.len() - j > 2 && s[j + 1] == 'n' && s[j + 2] == 'f' {
        return Err(JsonParseError::InvalidNumber(c));
    }
    if c == 't' && s.len() - j > 3 && s[j + 1] == 'r' && s[j + 2] == 'u' && s[j + 3] == 'e' {
        return Ok((MawuValue::Bool(true), j + 4));
    }
    if c == 'f' && s.len() - j > 4 && s[j + 1] == 'a' && s[j + 2] == 'l' && s[j + 3] == 's' && s[j
        + 4] == 'e' {
        return Ok((MawuValue::Bool(false), j + 5));
    }
    if c == 'n' && s.len() - j > 3 && s[j + 1] == 'u' && s[j + 2] == 'l' && s[j + 3] == 'l' {
        return Ok((MawuValue::Null, j + 4));
    }
    if structural_char(c) {
        return Err(JsonParseError::InvalidStructuralToken(c));
    }
    if c == '"' {
        return match json_string_lexer(s, j + 1) {
            Ok((text, n)) => Ok((MawuValue::Text(text), n)),
            Err(e) => Err(e),
        };
    }
    if c == '-' || digit_char(c) {
        return match json_number_chars(s, j + 1) {
            Ok((rest, n)) => {
                let mut tok: Vec<char> = Vec::new();
                tok.push(c);
                let mut rest = rest;
                tok.append(&mut rest);
                proof {
                    assert(tok@ == seq![c] + spec_number_chars(s@, j as int + 1)->Done_0);
                }
                let v = MawuValue::from_text_chars(&tok);
                Ok((v, n))
            },
            Err(e) => Err(e),
        };
    }
    Err(JsonParseError::InvalidCharacter(c))
}

/// Parses the members of an object, the cursor standing just inside the
/// opening brace.
fn json_object_lexer(s: &Vec<char>, pos: usize) -> (r: Result<(MawuValue, usize), JsonParseError>)
    requires
        pos <= s@.len(),
    ensures
        match r {
            Ok(p) => spec_json_object(s@, pos as int, Seq::empty()) == JsonStep::Value(
                p.0@,
                p.1 as int,
            ) && pos < p.1 <= s@.len(),
            Err(e) => spec_json_object(s@, pos as int, Seq::empty()) == JsonStep::Fail(e),
        },
    decreases s@.len() - pos, 1int,
{
    let mut entries: Vec<(String, MawuValue)> = Vec::new();
    let mut cur: usize = pos;
    proof {
        crate::model::lemma_entries_model_len(entries);
        assert(entries_model(entries) =~= Seq::<(Seq<char>, ValueModel)>::empty());
    }
    loop
        invariant
            pos <= cur <= s@.len(),
            spec_json_object(s@, pos as int, Seq::empty()) == spec_json_object(
                s@,
                cur as int,
                entries_model(entries),
            ),
        decreases s@.len() - cur,
    {
        let j = skip_ws(s, cur);
        if j == s.len() {
            return Err(JsonParseError::ExpectedEndOfObject);
        }
        if s[j] == '}' {
            let out = MawuValue::Object(entries);
            proof {
                assert(out@ == ValueModel::Object(entries_model(out->Object_0)));
            }
            return Ok((out, j + 1));
        }
        if s[j] == ',' {
            cur = j + 1;
            continue ;
        }
        if s[j] == '"' {
            let ghost em = entries_model(entries);
            let (key, k) = match json_string_lexer(s, j + 1) {
                Ok(p) => p,
                Err(e) => {
                    return Err(e);
                },
            };
            let m = skip_ws(s, k);
            if m == s.len() {
                return Err(JsonParseError::ExpectedColon);
            }
            if s[m] != ':' {
                return Err(JsonParseError::ExpectedColon);
            }
            proof {
                assert(adv_pos(s@, cur as int, m as int + 1) == m + 1);
            }
            let (v, n) = match json_value_lexer(s, m + 1) {
                Ok(p) => p,
                Err(e) => {
                    return Err(e);
                },
            };
            proof {
                assert(adv_pos(s@, cur as int, n as int) == n as int);
            }
            let ghost key_view = key@;
            let ghost v_view = v@;
            put_entry(&mut entries, key, v);
            proof {
                assert(entries_model(entries) == entries_put(em, key_view, v_view));
            }
            cur = n;
            continue ;
        }
        return Err(JsonParseError::ExpectedKey);
    }
}

/// Parses the elements of an array, the cursor standing just inside the
/// opening bracket.
fn json_array_lexer(s: &Vec<char>, pos: usize) -> (r: Result<(MawuValue, usize), JsonParseError>)
    requires
        pos <= s@.len(),
    ensures
        match r {
            Ok(p) => spec_json_array(s@, pos as int, Seq::empty()) == JsonStep::Value(
                p.0@,
                p.1 as int,
            ) && pos < p.1 <= s@.len(),
            Err(e) => spec_json_array(s@, pos as int, Seq::empty()) == JsonStep::Fail(e),
        },
    decreases s@.len() - pos, 1int,
{
    let mut items: Vec<MawuValue> = Vec::new();
    let mut cur: usize = pos;
    proof {
        crate::model::lemma_row_model_len(items);
        assert(crate::mawu_value::row_model(items) =~= Seq::<ValueModel>::empty());
    }
    loop
        invariant
            pos <= cur <= s@.len(),
            spec_json_array(s@, pos as int, Seq::empty()) == spec_json_array(
                s@,
                cur as int,
                crate::mawu_value::row_model(items),
            ),
        decreases s@.len() - cur,
    {
        let j = skip_ws(s, cur);
        if j == s.len() {
            return Err(JsonParseError::UnexpectedEndOfFile);
        }
        if s[j] == ']' {
            let out = MawuValue::Array(items);
            proof {
                assert(out@ == ValueModel::Array(crate::mawu_value::row_model(out->Array_0)));
            }
            return Ok((out, j + 1));
        }
        if s[j] == ',' {
            cur = j + 1;
            continue ;
        }
        let ghost im = crate::mawu_value::row_model(items);
        let (v, n) = match json_value_lexer(s, j) {
            Ok(p) => p,
            Err(e) => {
                return Err(e);
            },
        };
        proof {
            assert(adv_pos(s@, cur as int, n as int) == n as int);
        }
        let ghost v_view = v@;
        items.push(v);
        proof {
            crate::model::lemma_row_model_len(items);
            assert forall|q: int|
                0 <= q < items@.len() implies #[trigger] crate::mawu_value::row_model(items)[q]
                == im.push(v_view)[q] by {
                crate::model::lemma_row_model_index(items, q);
                if q < items@.len() - 1 {
                    crate::model::lemma_row_model_index(items, q);
                }
            }
            assert(crate::mawu_value::row_model(items) =~= im.push(v_view));
        }
        cur = n;
    }
}

/// Parses a whole JSON text: the empty input is the null value by
/// deliberate relaxation; otherwise the first value decides and what
/// follows it is ignored.
pub fn json_lexer(file_contents: Vec<char>) -> (r: Result<MawuValue, MawuError>)
    ensures
        match r {
            Ok(v) => spec_json(file_contents@) == Ok::<ValueModel, MawuError>(v@),
            Err(e) => spec_json(file_contents@) == Err::<ValueModel, MawuError>(e),
        },
{
    if file_contents.len() == 0 {
        return Ok(MawuValue::Null);
    }
    match json_value_lexer(&file_contents, 0) {
        Ok(p) => Ok(p.0),
        Err(e) => Err(MawuError::JsonError(JsonError::ParseError(e))),
    }
}

} // verus!
