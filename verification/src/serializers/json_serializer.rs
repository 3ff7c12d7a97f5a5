//! The JSON serializer: depth-first recursive emission, with indentation
//! `spaces-per-level * depth` and zero spaces meaning the compact mode.

use vstd::prelude::*;

use crate::convert::float_text_of;
use crate::convert::string_from_chars;
use crate::errors::JsonError;
use crate::errors::JsonWriteError;
use crate::errors::MawuError;
use crate::mawu_value::model_kind;
use crate::mawu_value::MawuValue;
use crate::mawu_value::ValueModel;
use crate::numbers::digits_of;
use crate::numbers::float_is_infinite;
use crate::numbers::float_is_nan;
use crate::numbers::int_text_of;

verus! {

broadcast use
    vstd::seq::axiom_seq_index_decreases,
    vstd::seq_lib::group_seq_lib_default,
    vstd::seq::axiom_seq_subrange_decreases;

/// The lower-case hexadecimal digit character for one digit value.
pub open spec fn hex_char_of(d: int) -> char {
    if d < 10 {
        crate::numbers::digit_char_of(d)
    } else if d == 10 {
        'a'
    } else if d == 11 {
        'b'
    } else if d == 12 {
        'c'
    } else if d == 13 {
        'd'
    } else if d == 14 {
        'e'
    } else {
        'f'
    }
}

/// The escaped spelling of one string character: the eight fixed escapes
/// where they exist, a `\u00XX` escape for any other control character,
/// and the character itself for everything else.
pub open spec fn esc_char(c: char) -> Seq<char> {
    if c == '"' {
        seq!['\\', '"']
    } else if c == '\\' {
        seq!['\\', '\\']
    } else if c == '/' {
        seq!['\\', '/']
    } else if c == '\n' {
        seq!['\\', 'n']
    } else if c == '\r' {
        seq!['\\', 'r']
    } else if c == '\t' {
        seq!['\\', 't']
    } else if c == '\u{0008}' {
        seq!['\\', 'b']
    } else if c == '\u{000C}' {
        seq!['\\', 'f']
    } else if (c as u32) < 0x20 {
        seq!['\\', 'u', '0', '0', hex_char_of(c as u32 as int / 16), hex_char_of(c as u32 as int % 16)]
    } else {
        seq![c]
    }
}

/// The escaped spelling of a text.
pub open spec fn escape_text(t: Seq<char>) -> Seq<char>
    decreases t.len(),
{
    if t.len() == 0 {
        Seq::empty()
    } else {
        escape_text(t.drop_last()) + esc_char(t.last())
    }
}

/// Whether the text holds a decimal point.
pub open spec fn has_dot(t: Seq<char>) -> bool {
    exists|i: int| 0 <= i < t.len() && t[i] == '.'
}

/// The JSON spelling of a float: its display text, with `.0` appended when
/// the text has no decimal point, so that the integer/float distinction
/// survives a round trip; a NaN or infinity keeps its bare display text.
pub open spec fn float_json_text(b: u64) -> Seq<char> {
    let t = float_text_of(b);
    if float_is_nan(b) || float_is_infinite(b) || has_dot(t) {
        t
    } else {
        t + seq!['.', '0']
    }
}

/// A run of blanks indenting one construct at the given depth.
pub open spec fn indent_text(spaces: int, depth: int) -> Seq<char> {
    Seq::new((spaces * depth) as nat, |i: int| ' ')
}

/// The depth one level further in, capped so that indentation arithmetic
/// stays within machine range.
pub open spec fn deeper(depth: int) -> int {
    if depth + 1 > 0xFFFF {
        0xFFFF
    } else {
        depth + 1
    }
}

/// What serializing a value as JSON yields: scalars in their canonical
/// spellings, containers recursively with separators between elements, and
/// a CSV table refused with its variant named.
pub open spec fn spec_serialize_json(m: ValueModel, spaces: int, depth: int) -> Result<
    Seq<char>,
    MawuError,
>
    decreases m, 1int,
{
    match m {
        ValueModel::Null => Ok("null"@),
        ValueModel::Bool(b) => if b {
            Ok("true"@)
        } else {
            Ok("false"@)
        },
        ValueModel::Uint(v) => Ok(digits_of(v as int)),
        ValueModel::Int(v) => Ok(int_text_of(v as int)),
        ValueModel::Float(b) => Ok(float_json_text(b)),
        ValueModel::Text(t) => Ok(seq!['"'] + escape_text(t) + seq!['"']),
        ValueModel::Array(items) => match spec_json_items(items, spaces, depth) {
            Ok(body) => if items.len() == 0 || spaces == 0 {
                Ok(seq!['['] + body + seq![']'])
            } else {
                Ok(
                    seq!['['] + body + seq!['\n'] + indent_text(spaces, depth) + seq![']'],
                )
            },
            Err(e) => Err(e),
        },
        ValueModel::Object(entries) => match spec_json_entries(entries, spaces, depth) {
            Ok(body) => if entries.len() == 0 || spaces == 0 {
                Ok(seq!['{'] + body + seq!['}'])
            } else {
                Ok(
                    seq!['{'] + body + seq!['\n'] + indent_text(spaces, depth) + seq!['}'],
                )
            },
            Err(e) => Err(e),
        },
        ValueModel::CSVObject(_) => Err(
            MawuError::JsonError(JsonError::WriteError(JsonWriteError::NotJSONType(model_kind(m)))),
        ),
        ValueModel::CSVArray(_) => Err(
            MawuError::JsonError(JsonError::WriteError(JsonWriteError::NotJSONType(model_kind(m)))),
        ),
    }
}

/// The separator-joined texts of an array's elements; in the pretty mode
/// every element begins on its own indented line.
pub open spec fn spec_json_items(items: Seq<ValueModel>, spaces: int, depth: int) -> Result<
    Seq<char>,
    MawuError,
>
    decreases items, 0int,
{
    if items.len() == 0 {
        Ok(Seq::empty())
    } else {
        match spec_json_items(items.drop_last(), spaces, depth) {
            Ok(pre) => match spec_serialize_json(items.last(), spaces, deeper(depth)) {
                Ok(t) => {
                    let lead = if spaces == 0 {
                        Seq::<char>::empty()
                    } else {
                        seq!['\n'] + indent_text(spaces, deeper(depth))
                    };
                    if items.len() == 1 {
                        Ok(lead + t)
                    } else {
                        Ok(pre + seq![','] + lead + t)
                    }
                },
                Err(e) => Err(e),
            },
            Err(e) => Err(e),
        }
    }
}

/// The separator-joined texts of an object's entries; every key is written
/// as an escaped JSON string before its value.
pub open spec fn spec_json_entries(
    entries: Seq<(Seq<char>, ValueModel)>,
    spaces: int,
    depth: int,
) -> Result<Seq<char>, MawuError>
    decreases entries, 0int,
{
    if entries.len() == 0 {
        Ok(Seq::empty())
    } else {
        match spec_json_entries(entries.drop_last(), spaces, depth) {
            Ok(pre) => match spec_serialize_json(entries.last().1, spaces, deeper(depth)) {
                Ok(t) => {
                    let lead = if spaces == 0 {
                        Seq::<char>::empty()
                    } else {
                        seq!['\n'] + indent_text(spaces, deeper(depth))
                    };
                    let sep = if spaces == 0 {
                        seq![':']
                    } else {
                        seq![':', ' ']
                    };
                    let one = lead + seq!['"'] + escape_text(entries.last().0) + seq!['"'] + sep
                        + t;
                    if entries.len() == 1 {
                        Ok(one)
                    } else {
                        Ok(pre + seq![','] + one)
                    }
                },
                Err(e) => Err(e),
            },
            Err(e) => Err(e),
        }
    }
}

/// Appends a piece of text to the output being built.
pub(crate) fn push_seq(out: &mut Vec<char>, piece: Vec<char>)
    ensures
        final(out)@ == old(out)@ + piece@,
{
    let mut p = piece;
    out.append(&mut p);
}

/// The lower-case hexadecimal digit character, as executable code.
fn hex_char(d: u8) -> (c: char)
    requires
        d <= 15,
    ensures
        c == hex_char_of(d as int),
{
    match d {
        0 => '0',
        1 => '1',
        2 => '2',
        3 => '3',
        4 => '4',
        5 => '5',
        6 => '6',
        7 => '7',
        8 => '8',
        9 => '9',
        10 => 'a',
        11 => 'b',
        12 => 'c',
        13 => 'd',
        14 => 'e',
        _ => 'f',
    }
}

/// Writes the escaped spelling of a text.
fn escape_chars(t: &Vec<char>) -> (r: Vec<char>)
    ensures
        r@ == escape_text(t@),
{
    let mut out: Vec<char> = Vec::new();
    let mut i: usize = 0;
    proof {
        assert(t@.subrange(0, 0) =~= Seq::<char>::empty());
    }
    while i < t.len()
        invariant
            i <= t@.len(),
            out@ == escape_text(t@.subrange(0, i as int)),
        decreases t@.len() - i,
    {
        let c = t[i];
        let ghost pre = t@.subrange(0, i as int);
        let ghost cur = t@.subrange(0, i as int + 1);
        proof {
            assert(cur.drop_last() =~= pre);
            assert(cur.last() == t@[i as int]);
        }
        let cv = c as u32;
        if c == '"' {
            out.push('\\');
            out.push('"');
        } else if c == '\\' {
            out.push('\\');
            out.push('\\');
        } else if c == '/' {
            out.push('\\');
            out.push('/');
        } else if c == '\n' {
            out.push('\\');
            out.push('n');
        } else if c == '\r' {
            out.push('\\');
            out.push('r');
        } else if c == '\t' {
            out.push('\\');
            out.push('t');
        } else if c == '\u{0008}' {
            out.push('\\');
            out.push('b');
        } else if c == '\u{000C}' {
            out.push('\\');
            out.push('f');
        } else if cv < 0x20 {
            out.push('\\');
            out.push('u');
            out.push('0');
            out.push('0');
            out.push(hex_char((cv / 16) as u8));
            out.push(hex_char((cv % 16) as u8));
        } else {
            out.push(c);
        }
        i = i + 1;
        proof {
            assert(out@ =~= escape_text(pre) + esc_char(cur.last()));
        }
    }
    proof {
        assert(t@.subrange(0, t@.len() as int) =~= t@);
    }
    out
}

/// Writes the run of blanks indenting one construct at the given depth.
pub(crate) fn make_indent(spaces: u8, depth: u16) -> (r: Vec<char>)
    ensures
        r@ == indent_text(spaces as int, depth as int),
{
    proof {
        assert(spaces as int * depth as int <= 255 * 65535) by (nonlinear_arith)
            requires
                spaces as int <= 255,
                depth as int <= 65535,
        ;
    }
    let total: usize = (spaces as usize) * (depth as usize);
    let mut out: Vec<char> = Vec::new();
    let mut i: usize = 0;
    while i < total
        invariant
            i <= total,
            total == spaces as int * depth as int,
            out@ == Seq::new(i as nat, |q: int| ' '),
        decreases total - i,
    {
        out.push(' ');
        i = i + 1;
        proof {
            assert(out@ =~= Seq::new(i as nat, |q: int| ' '));
        }
    }
    proof {
        assert(out@ =~= indent_text(spaces as int, depth as int));
    }
    out
}

/// The depth one level further in, capped, as executable code.
fn deeper_exec(depth: u16) -> (r: u16)
    ensures
        r as int == deeper(depth as int),
{
    if depth == 0xFFFF {
        depth
    } else {
        depth + 1
    }
}

/// Whether the text holds a decimal point, as executable code.
fn find_dot(t: &Vec<char>) -> (r: bool)
    ensures
        r == has_dot(t@),
{
    let mut i: usize = 0;
    while i < t.len()
        invariant
            i <= t@.len(),
            forall|j: int| 0 <= j < i ==> t@[j] != '.',
        decreases t@.len() - i,
    {
        if t[i] == '.' {
            return true;
        }
        i = i + 1;
    }
    false
}

/// An error at one element decides the whole element list.
proof fn lemma_items_err(items: Seq<ValueModel>, spaces: int, depth: int, m: int)
    requires
        0 <= m <= items.len(),
        spec_json_items(items.subrange(0, m), spaces, depth) is Err,
    ensures
        spec_json_items(items, spaces, depth) == spec_json_items(
            items.subrange(0, m),
            spaces,
            depth,
        ),
    decreases items.len() - m,
{
    if m < items.len() {
        let a = items.subrange(0, m);
        let b = items.subrange(0, m + 1);
        assert(b.drop_last() =~= a);
        lemma_items_err(items, spaces, depth, m + 1);
    } else {
        assert(items.subrange(0, m) =~= items);
    }
}

/// An error at one entry decides the whole entry list.
proof fn lemma_entries_err(
    entries: Seq<(Seq<char>, ValueModel)>,
    spaces: int,
    depth: int,
    m: int,
)
    requires
        0 <= m <= entries.len(),
        spec_json_entries(entries.subrange(0, m), spaces, depth) is Err,
    ensures
        spec_json_entries(entries, spaces, depth) == spec_json_entries(
            entries.subrange(0, m),
            spaces,
            depth,
        ),
    decreases entries.len() - m,
{
    if m < entries.len() {
        let a = entries.subrange(0, m);
        let b = entries.subrange(0, m + 1);
        assert(b.drop_last() =~= a);
        lemma_entries_err(entries, spaces, depth, m + 1);
    } else {
        assert(entries.subrange(0, m) =~= entries);
    }
}

/// Serializes one value as JSON text characters.
fn serialize_value(value: &MawuValue, spaces: u8, depth: u16) -> (r: Result<Vec<char>, MawuError>)
    ensures
        match r {
            Ok(t) => spec_serialize_json(value@, spaces as int, depth as int) == Ok::<
                Seq<char>,
                MawuError,
            >(t@),
            Err(e) => spec_serialize_json(value@, spaces as int, depth as int) == Err::<
                Seq<char>,
                MawuError,
            >(e),
        },
    decreases value, 1int,
{
    match value {
        MawuValue::Null => {
            let out = crate::convert::chars_of("null");
            Ok(out)
        },
        MawuValue::Bool(b) => {
            let out = if *b {
                crate::convert::chars_of("true")
            } else {
                crate::convert::chars_of("false")
            };
            Ok(out)
        },
        MawuValue::Uint(v) => Ok(crate::numbers::u64_digits(*v)),
        MawuValue::Int(v) => Ok(crate::numbers::i64_text(*v)),
        MawuValue::Float(b) => {
            let text = crate::convert::float_display(*b);
            let mut t = crate::convert::chars_of(text.as_str());
            if !crate::numbers::float_non_finite(*b) && !find_dot(&t) {
                let ghost t0 = t@;
                t.push('.');
                t.push('0');
                proof {
                    assert(t@ =~= t0 + seq!['.', '0']);
                }
            }
            Ok(t)
        },
        MawuValue::Text(s) => {
            let chars = crate::convert::chars_of(s.as_str());
            let body = escape_chars(&chars);
            let mut out: Vec<char> = Vec::new();
            out.push('"');
            push_seq(&mut out, body);
            out.push('"');
            proof {
                assert(out@ =~= seq!['"'] + escape_text(s@) + seq!['"']);
            }
            Ok(out)
        },
        MawuValue::CSVObject(_) => Err(
            MawuError::JsonError(
                JsonError::WriteError(JsonWriteError::NotJSONType(crate::errors::ValueKind::CSVObject)),
            ),
        ),
        MawuValue::CSVArray(_) => Err(
            MawuError::JsonError(
                JsonError::WriteError(JsonWriteError::NotJSONType(crate::errors::ValueKind::CSVArray)),
            ),
        ),
        MawuValue::Array(items) => {
            let ghost im = crate::mawu_value::row_model(*items);
            proof {
                crate::model::lemma_row_model_len(*items);
                assert(im.subrange(0, 0) =~= Seq::<ValueModel>::empty());
            }
            let mut body: Vec<char> = Vec::new();
            let mut k: usize = 0;
            while k < items.len()
                invariant
                    k <= items@.len(),
                    im == crate::mawu_value::row_model(*items),
                    im.len() == items@.len(),
                    value == MawuValue::Array(*items),
                    spec_json_items(im.subrange(0, k as int), spaces as int, depth as int)
                        == Ok::<Seq<char>, MawuError>(body@),
                decreases items@.len() - k,
            {
                let ghost pre = im.subrange(0, k as int);
                let ghost cur = im.subrange(0, k as int + 1);
                proof {
                    assert(cur.drop_last() =~= pre);
                    crate::model::lemma_row_model_index(*items, k as int);
                    assert(cur.last() == im[k as int]);
                }
                let t = match serialize_value(&items[k], spaces, deeper_exec(depth)) {
                    Ok(t) => t,
                    Err(e) => {
                        proof {
                            lemma_items_err(im, spaces as int, depth as int, k as int + 1);
                            assert(value@ == ValueModel::Array(im));
                        }
                        return Err(e);
                    },
                };
                let ghost body0 = body@;
                if k > 0 {
                    body.push(',');
                }
                if spaces > 0 {
                    body.push('\n');
                    let ind = make_indent(spaces, deeper_exec(depth));
                    push_seq(&mut body, ind);
                }
                push_seq(&mut body, t);
                k = k + 1;
                proof {
                    let lead: Seq<char> = if spaces as int == 0 {
                        Seq::<char>::empty()
                    } else {
                        seq!['\n'] + indent_text(spaces as int, deeper(depth as int))
                    };
                    if k == 1 {
                        assert(body@ =~= lead + spec_serialize_json(
                            cur.last(),
                            spaces as int,
                            deeper(depth as int),
                        )->Ok_0);
                    } else {
                        assert(body@ =~= body0 + seq![','] + lead + spec_serialize_json(
                            cur.last(),
                            spaces as int,
                            deeper(depth as int),
                        )->Ok_0);
                    }
                }
            }
            proof {
                assert(im.subrange(0, im.len() as int) =~= im);
                assert(value@ == ValueModel::Array(im));
            }
            let mut out: Vec<char> = Vec::new();
            out.push('[');
            push_seq(&mut out, body);
            if items.len() > 0 && spaces > 0 {
                out.push('\n');
                let ind = make_indent(spaces, depth);
                push_seq(&mut out, ind);
            }
            out.push(']');
            proof {
                let bodyv = spec_json_items(im, spaces as int, depth as int)->Ok_0;
                if im.len() == 0 || spaces as int == 0 {
                    assert(out@ =~= seq!['['] + bodyv + seq![']']);
                } else {
                    assert(out@ =~= seq!['['] + bodyv + seq!['\n'] + indent_text(
                        spaces as int,
                        depth as int,
                    ) + seq![']']);
                }
            }
            Ok(out)
        },
        MawuValue::Object(entries) => {
            let ghost em = crate::mawu_value::entries_model(*entries);
            proof {
                crate::model::lemma_entries_model_len(*entries);
                assert(em.subrange(0, 0) =~= Seq::<(Seq<char>, ValueModel)>::empty());
            }
            let mut body: Vec<char> = Vec::new();
            let mut k: usize = 0;
            while k < entries.len()
                invariant
                    k <= entries@.len(),
                    em == crate::mawu_value::entries_model(*entries),
                    em.len() == entries@.len(),
                    value == MawuValue::Object(*entries),
                    spec_json_entries(em.subrange(0, k as int), spaces as int, depth as int)
                        == Ok::<Seq<char>, MawuError>(body@),
                decreases entries@.len() - k,
            {
                let ghost pre = em.subrange(0, k as int);
                let ghost cur = em.subrange(0, k as int + 1);
                proof {
                    assert(cur.drop_last() =~= pre);
                    crate::model::lemma_entries_model_index(*entries, k as int);
                    assert(cur.last() == em[k as int]);
                }
                let t = match serialize_value(&entries[k].1, spaces, deeper_exec(depth)) {
                    Ok(t) => t,
                    Err(e) => {
                        proof {
                            lemma_entries_err(em, spaces as int, depth as int, k as int + 1);
                            assert(value@ == ValueModel::Object(em));
                        }
                        return Err(e);
                    },
                };
                let key_chars = crate::convert::chars_of(entries[k].0.as_str());
                let key_body = escape_chars(&key_chars);
                let ghost body0 = body@;
                if k > 0 {
                    body.push(',');
                }
                if spaces > 0 {
                    body.push('\n');
                    let ind = make_indent(spaces, deeper_exec(depth));
                    push_seq(&mut body, ind);
                }
                body.push('"');
                push_seq(&mut body, key_body);
                body.push('"');
                body.push(':');
                if spaces > 0 {
                    body.push(' ');
                }
                push_seq(&mut body, t);
                k = k + 1;
                proof {
                    let lead: Seq<char> = if spaces as int == 0 {
                        Seq::<char>::empty()
                    } else {
                        seq!['\n'] + indent_text(spaces as int, deeper(depth as int))
                    };
                    let sep: Seq<char> = if spaces as int == 0 {
                        seq![':']
                    } else {
                        seq![':', ' ']
                    };
                    let one = lead + seq!['"'] + escape_text(cur.last().0) + seq!['"'] + sep
                        + spec_serialize_json(
                        cur.last().1,
                        spaces as int,
                        deeper(depth as int),
                    )->Ok_0;
                    if k == 1 {
                        assert(body@ =~= one);
                    } else {
                        assert(body@ =~= body0 + seq![','] + one);
                    }
                }
            }
            proof {
                assert(em.subrange(0, em.len() as int) =~= em);
                assert(value@ == ValueModel::Object(em));
            }
            let mut out: Vec<char> = Vec::new();
            out.push('{');
            push_seq(&mut out, body);
            if entries.len() > 0 && spaces > 0 {
                out.push('\n');
                let ind = make_indent(spaces, depth);
                push_seq(&mut out, ind);
            }
            out.push('}');
            proof {
                let bodyv = spec_json_entries(em, spaces as int, depth as int)->Ok_0;
                if em.len() == 0 || spaces as int == 0 {
                    assert(out@ =~= seq!['{'] + bodyv + seq!['}']);
                } else {
                    assert(out@ =~= seq!['{'] + bodyv + seq!['\n'] + indent_text(
                        spaces as int,
                        depth as int,
                    ) + seq!['}']);
                }
            }
            Ok(out)
        },
    }
}

/// The canonical text of a model value: scalars in their canonical
/// spellings, a JSON container as its compact JSON text or nothing where
/// that text is refused, and null as nothing.
pub open spec fn model_text(m: ValueModel) -> Seq<char> {
    match m {
        ValueModel::Null => Seq::empty(),
        ValueModel::Text(t) => t,
        ValueModel::Uint(v) => digits_of(v as int),
        ValueModel::Int(v) => int_text_of(v as int),
        ValueModel::Float(b) => float_text_of(b),
        ValueModel::Bool(b) => if b {
            "true"@
        } else {
            "false"@
        },
        _ => match spec_serialize_json(m, 0, 0) {
            Ok(t) => t,
            Err(_) => Seq::empty(),
        },
    }
}

impl MawuValue {
    /// An owned copy of the value as text: its canonical spelling for
    /// scalars, nothing for null, compact JSON for the JSON containers, and
    /// nothing for a CSV table, which JSON text refuses.
    pub fn to_string(&self) -> (r: String)
        ensures
            r@ == model_text(self@),
    {
        match self {
            MawuValue::Null => String::new(),
            MawuValue::Text(s) => s.clone(),
            MawuValue::Uint(v) => {
                let digits = crate::numbers::u64_digits(*v);
                string_from_chars(&digits)
            },
            MawuValue::Int(v) => {
                let digits = crate::numbers::i64_text(*v);
                string_from_chars(&digits)
            },
            MawuValue::Float(b) => crate::convert::float_display(*b),
            MawuValue::Bool(b) => {
                if *b {
                    String::from_str("true")
                } else {
                    String::from_str("false")
                }
            },
            _ => {
                match serialize_value(self, 0, 0) {
                    Ok(t) => string_from_chars(&t),
                    Err(_) => String::new(),
                }
            },
        }
    }
}

/// Serializes a value as JSON text: scalars in their canonical spellings,
/// containers recursively, a CSV table refused with its variant named.
pub fn serialize_json(value: MawuValue, spaces: u8, depth: u16) -> (r: Result<String, MawuError>)
    ensures
        match r {
            Ok(s) => spec_serialize_json(value@, spaces as int, depth as int) == Ok::<
                Seq<char>,
                MawuError,
            >(s@),
            Err(e) => spec_serialize_json(value@, spaces as int, depth as int) == Err::<
                Seq<char>,
                MawuError,
            >(e),
        },
{
    match serialize_value(&value, spaces, depth) {
        Ok(t) => Ok(string_from_chars(&t)),
        Err(e) => Err(e),
    }
}

} // verus!
