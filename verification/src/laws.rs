//! Crate-level laws: what holds of parsing and serializing together.

use vstd::prelude::*;

use crate::errors::MawuError;
use crate::lexers::json_lexer::spec_json;
use crate::lexers::json_lexer::spec_json_value;
use crate::lexers::json_lexer::spec_number_chars;
use crate::lexers::json_lexer::spec_skip_ws;
use crate::lexers::json_lexer::JsonStep;
use crate::lexers::json_lexer::TokenStep;
use crate::mawu_value::scalar_model_of_text;
use crate::mawu_value::ValueModel;
use crate::numbers::all_digits;
use crate::numbers::char_digit;
use crate::numbers::digit_char_of;
use crate::numbers::digits_int;
use crate::numbers::digits_of;
use crate::numbers::int_text_of;
use crate::numbers::is_digit_char;
use crate::numbers::spec_parse_i64;
use crate::numbers::spec_parse_u64;
use crate::serializers::json_serializer::esc_char;
use crate::serializers::json_serializer::escape_text;
use crate::serializers::json_serializer::spec_serialize_json;

verus! {

/// Parsing is a function of the text alone: two parses of one text yield
/// identical values, so parsing the serializer's own output twice yields
/// the same value both times.
pub proof fn lemma_json_parse_deterministic(s: Seq<char>, a: ValueModel, b: ValueModel)
    requires
        spec_json(s) == Ok::<ValueModel, MawuError>(a),
        spec_json(s) == Ok::<ValueModel, MawuError>(b),
    ensures
        a == b,
{
}

/// Whether every object inside the model value has unique keys, at every
/// nesting depth.
pub open spec fn model_keys_unique(m: ValueModel) -> bool
    decreases m,
{
    match m {
        ValueModel::Object(entries) => crate::mawu_value::entries_unique(entries) && forall|
            q: int,
        |
            0 <= q < entries.len() ==> model_keys_unique(#[trigger] entries[q].1),
        ValueModel::Array(items) => forall|q: int|
            0 <= q < items.len() ==> model_keys_unique(#[trigger] items[q]),
        ValueModel::CSVObject(rows) => forall|r: int, q: int|
            0 <= r < rows.len() && 0 <= q < rows[r].len() ==> model_keys_unique(
                #[trigger] rows[r][q].1,
            ),
        ValueModel::CSVArray(rows) => forall|r: int, q: int|
            0 <= r < rows.len() && 0 <= q < rows[r].len() ==> model_keys_unique(
                #[trigger] rows[r][q],
            ),
        _ => true,
    }
}

/// A duplicate key overwrites: whatever the JSON parser returns has unique
/// keys in every object, at every nesting depth.
pub proof fn lemma_json_parse_keys_unique(s: Seq<char>, v: ValueModel)
    requires
        spec_json(s) == Ok::<ValueModel, MawuError>(v),
    ensures
        model_keys_unique(v),
{
    if s.len() > 0 {
        lemma_value_parse_unique(s, 0);
    }
}

/// Every value the value grammar yields has unique object keys.
proof fn lemma_value_parse_unique(s: Seq<char>, i: int)
    ensures
        spec_json_value(s, i) matches JsonStep::Value(v, n) ==> model_keys_unique(v),
    decreases s.len() - i, 0int,
{
    let j = crate::lexers::json_lexer::spec_ws(s, i);
    if j < s.len() {
        let c = s[j];
        if c == '{' {
            lemma_object_parse_unique(s, j + 1, Seq::empty());
        } else if c == '[' {
            lemma_array_parse_unique(s, j + 1, Seq::empty());
        }
    }
}

/// Every object the member grammar yields from a unique-keyed start has
/// unique object keys.
proof fn lemma_object_parse_unique(s: Seq<char>, i: int, acc: Seq<(Seq<char>, ValueModel)>)
    requires
        crate::mawu_value::entries_unique(acc),
        forall|q: int| 0 <= q < acc.len() ==> model_keys_unique(#[trigger] acc[q].1),
    ensures
        crate::lexers::json_lexer::spec_json_object(s, i, acc) matches JsonStep::Value(v, n)
            ==> model_keys_unique(v),
    decreases s.len() - i, 1int,
{
    let j = crate::lexers::json_lexer::spec_ws(s, i);
    if j >= s.len() {
    } else if s[j] == '}' {
    } else if s[j] == ',' {
        lemma_object_parse_unique(s, j + 1, acc);
    } else if s[j] == '"' {
        match crate::lexers::json_lexer::spec_json_string(s, j + 1) {
            crate::lexers::json_lexer::TextStep::Done(key, k) => {
                let m = crate::lexers::json_lexer::spec_ws(s, k);
                if m < s.len() && s[m] == ':' {
                    let at = crate::lexers::json_lexer::adv_pos(s, i, m + 1);
                    lemma_value_parse_unique(s, at);
                    match spec_json_value(s, at) {
                        JsonStep::Value(v, n) => {
                            lemma_put_keeps_unique(acc, key, v);
                            let acc2 = crate::mawu_value::entries_put(acc, key, v);
                            assert forall|q: int|
                                0 <= q < acc2.len() implies model_keys_unique(
                                #[trigger] acc2[q].1,
                            ) by {
                                crate::mawu_value::lemma_entries_find(acc, key);
                                if crate::mawu_value::entries_has_key(acc, key) {
                                    if q != crate::mawu_value::entries_find(acc, key) {
                                        assert(acc2[q] == acc[q]);
                                    }
                                } else {
                                    if q < acc.len() {
                                        assert(acc2[q] == acc[q]);
                                    }
                                }
                            }
                            lemma_object_parse_unique(
                                s,
                                crate::lexers::json_lexer::adv_pos(s, i, n),
                                acc2,
                            );
                        },
                        JsonStep::Fail(_) => {},
                    }
                }
            },
            crate::lexers::json_lexer::TextStep::Fail(_) => {},
        }
    }
}

/// Every array the element grammar yields from unique-keyed elements has
/// unique object keys.
proof fn lemma_array_parse_unique(s: Seq<char>, i: int, acc: Seq<ValueModel>)
    requires
        forall|q: int| 0 <= q < acc.len() ==> model_keys_unique(#[trigger] acc[q]),
    ensures
        crate::lexers::json_lexer::spec_json_array(s, i, acc) matches JsonStep::Value(v, n)
            ==> model_keys_unique(v),
    decreases s.len() - i, 1int,
{
    let j = crate::lexers::json_lexer::spec_ws(s, i);
    if j >= s.len() {
    } else if s[j] == ']' {
    } else if s[j] == ',' {
        lemma_array_parse_unique(s, j + 1, acc);
    } else {
        lemma_value_parse_unique(s, j);
        match spec_json_value(s, j) {
            JsonStep::Value(v, n) => {
                lemma_array_parse_unique(
                    s,
                    crate::lexers::json_lexer::adv_pos(s, i, n),
                    acc.push(v),
                );
            },
            JsonStep::Fail(_) => {},
        }
    }
}

/// CSV parsing is a function of the text and the mode alone: two parses of
/// one text in one mode yield identical values.
pub proof fn lemma_csv_parse_deterministic(
    s: Seq<char>,
    headed_mode: bool,
    a: ValueModel,
    b: ValueModel,
)
    requires
        headed_mode ==> crate::lexers::csv_lexer::spec_csv_headed(s) == Ok::<
            ValueModel,
            MawuError,
        >(a) && crate::lexers::csv_lexer::spec_csv_headed(s) == Ok::<ValueModel, MawuError>(b),
        !headed_mode ==> crate::lexers::csv_lexer::spec_csv_headless(s) == Ok::<
            ValueModel,
            MawuError,
        >(a) && crate::lexers::csv_lexer::spec_csv_headless(s) == Ok::<ValueModel, MawuError>(
            b,
        ),
    ensures
        a == b,
{
}

/// Writing keys in order against a row keeps the keys unique.
proof fn lemma_build_entries_unique(
    keys: Seq<Seq<char>>,
    vals: Seq<ValueModel>,
    k: int,
    acc: Seq<(Seq<char>, ValueModel)>,
)
    requires
        crate::mawu_value::entries_unique(acc),
    ensures
        crate::mawu_value::entries_unique(
            crate::lexers::csv_lexer::build_entries(keys, vals, k, acc),
        ),
    decreases keys.len() - k,
{
    if 0 <= k < keys.len() && k < vals.len() {
        lemma_put_keeps_unique(acc, keys[k], vals[k]);
        lemma_build_entries_unique(
            keys,
            vals,
            k + 1,
            crate::mawu_value::entries_put(acc, keys[k], vals[k]),
        );
    }
}

/// Every record of a parsed headed table has unique keys: a duplicate
/// header key keeps only its last column's value.
pub proof fn lemma_csv_headed_keys_unique(s: Seq<char>, records: Seq<Seq<(Seq<char>, ValueModel)>>)
    requires
        crate::lexers::csv_lexer::spec_csv_headed(s) == Ok::<ValueModel, MawuError>(
            ValueModel::CSVObject(records),
        ),
    ensures
        forall|r: int|
            0 <= r < records.len() ==> crate::mawu_value::entries_unique(#[trigger] records[r]),
{
    let rows = crate::lexers::csv_lexer::spec_csv_rows(s, 0)->Done_0;
    let keys = Seq::new(
        rows[0].len(),
        |i: int|
            if 0 <= i < rows[0].len() {
                rows[0][i].0
            } else {
                Seq::empty()
            },
    );
    lemma_headed_records_unique(rows, keys, 1);
}

/// Every record the headed assembly yields has unique keys.
proof fn lemma_headed_records_unique(
    rows: Seq<Seq<(Seq<char>, bool)>>,
    keys: Seq<Seq<char>>,
    idx: int,
)
    ensures
        crate::lexers::csv_lexer::spec_headed_records(rows, keys, idx) matches Ok(t)
            ==> forall|r: int|
            0 <= r < t.len() ==> crate::mawu_value::entries_unique(#[trigger] t[r]),
    decreases rows.len() - idx,
{
    if 0 <= idx < rows.len() && rows[idx].len() <= keys.len() {
        lemma_headed_records_unique(rows, keys, idx + 1);
        match crate::lexers::csv_lexer::spec_headed_records(rows, keys, idx + 1) {
            Ok(rest) => {
                let first = crate::lexers::csv_lexer::build_entries(
                    keys,
                    crate::lexers::csv_lexer::pad_row(
                        crate::lexers::csv_lexer::convert_cells(rows[idx]),
                        keys.len() as int,
                    ),
                    0,
                    Seq::empty(),
                );
                assert(crate::mawu_value::entries_unique(Seq::empty()));
                lemma_build_entries_unique(
                    keys,
                    crate::lexers::csv_lexer::pad_row(
                        crate::lexers::csv_lexer::convert_cells(rows[idx]),
                        keys.len() as int,
                    ),
                    0,
                    Seq::empty(),
                );
                let t = seq![first] + rest;
                assert forall|r: int|
                    0 <= r < t.len() implies crate::mawu_value::entries_unique(
                    #[trigger] t[r],
                ) by {
                    if r > 0 {
                        assert(t[r] == rest[r - 1]);
                    }
                }
            },
            Err(_) => {},
        }
    }
}

/// Whether the model value is a scalar: not an array, not an object, not a
/// CSV table.
pub open spec fn is_scalar_model(m: ValueModel) -> bool {
    match m {
        ValueModel::Null => true,
        ValueModel::Bool(_) => true,
        ValueModel::Uint(_) => true,
        ValueModel::Int(_) => true,
        ValueModel::Float(_) => true,
        ValueModel::Text(_) => true,
        _ => false,
    }
}

/// The numeric literal selection policy yields a scalar on every text.
proof fn lemma_scalar_of_text_is_scalar(t: Seq<char>)
    ensures
        is_scalar_model(scalar_model_of_text(t)),
{
}

/// A converted record holds scalars only.
proof fn lemma_convert_cells_scalar(cells: Seq<(Seq<char>, bool)>)
    ensures
        forall|q: int|
            0 <= q < crate::lexers::csv_lexer::convert_cells(cells).len() ==> is_scalar_model(
                #[trigger] crate::lexers::csv_lexer::convert_cells(cells)[q],
            ),
{
    assert forall|q: int|
        0 <= q < crate::lexers::csv_lexer::convert_cells(cells).len() implies is_scalar_model(
        #[trigger] crate::lexers::csv_lexer::convert_cells(cells)[q],
    ) by {
        lemma_scalar_of_text_is_scalar(cells[q].0);
    }
}

/// A padded row holds scalars only where the row it pads does.
proof fn lemma_pad_row_scalar(vals: Seq<ValueModel>, w: int)
    requires
        forall|q: int| 0 <= q < vals.len() ==> is_scalar_model(#[trigger] vals[q]),
    ensures
        forall|q: int|
            0 <= q < crate::lexers::csv_lexer::pad_row(vals, w).len() ==> is_scalar_model(
                #[trigger] crate::lexers::csv_lexer::pad_row(vals, w)[q],
            ),
{
}

/// CSV carries no native containers: every cell of a parsed headless table
/// is a scalar.
pub proof fn lemma_csv_headless_cells_scalar(s: Seq<char>, rows: Seq<Seq<ValueModel>>)
    requires
        crate::lexers::csv_lexer::spec_csv_headless(s) == Ok::<ValueModel, MawuError>(
            ValueModel::CSVArray(rows),
        ),
    ensures
        forall|r: int, q: int|
            0 <= r < rows.len() && 0 <= q < rows[r].len() ==> is_scalar_model(
                #[trigger] rows[r][q],
            ),
{
    let parsed = crate::lexers::csv_lexer::spec_csv_rows(s, 0)->Done_0;
    let w = parsed[0].len() as int;
    assert(rows == seq![crate::lexers::csv_lexer::convert_cells(parsed[0])]
        + crate::lexers::csv_lexer::padded_rows(parsed.drop_first(), w));
    assert forall|r: int, q: int|
        0 <= r < rows.len() && 0 <= q < rows[r].len() implies is_scalar_model(
        #[trigger] rows[r][q],
    ) by {
        if r == 0 {
            lemma_convert_cells_scalar(parsed[0]);
        } else {
            assert(rows[r] == crate::lexers::csv_lexer::padded_rows(parsed.drop_first(), w)[r
                - 1]);
            assert(rows[r] == crate::lexers::csv_lexer::pad_row(
                crate::lexers::csv_lexer::convert_cells(parsed.drop_first()[r - 1]),
                w,
            ));
            lemma_convert_cells_scalar(parsed.drop_first()[r - 1]);
            lemma_pad_row_scalar(
                crate::lexers::csv_lexer::convert_cells(parsed.drop_first()[r - 1]),
                w,
            );
        }
    }
}

/// Writing scalar values against the keys keeps every stored value scalar.
proof fn lemma_build_entries_scalar(
    keys: Seq<Seq<char>>,
    vals: Seq<ValueModel>,
    k: int,
    acc: Seq<(Seq<char>, ValueModel)>,
)
    requires
        forall|q: int| 0 <= q < vals.len() ==> is_scalar_model(#[trigger] vals[q]),
        forall|q: int| 0 <= q < acc.len() ==> is_scalar_model((#[trigger] acc[q]).1),
    ensures
        forall|q: int|
            0 <= q < crate::lexers::csv_lexer::build_entries(keys, vals, k, acc).len()
                ==> is_scalar_model(
                (#[trigger] crate::lexers::csv_lexer::build_entries(keys, vals, k, acc)[q]).1,
            ),
    decreases keys.len() - k,
{
    if 0 <= k < keys.len() && k < vals.len() {
        let acc2 = crate::mawu_value::entries_put(acc, keys[k], vals[k]);
        assert forall|q: int| 0 <= q < acc2.len() implies is_scalar_model(
            (#[trigger] acc2[q]).1,
        ) by {
            crate::mawu_value::lemma_entries_find(acc, keys[k]);
            if crate::mawu_value::entries_has_key(acc, keys[k]) {
                if q != crate::mawu_value::entries_find(acc, keys[k]) {
                    assert(acc2[q] == acc[q]);
                }
            } else {
                if q < acc.len() {
                    assert(acc2[q] == acc[q]);
                }
            }
        }
        lemma_build_entries_scalar(keys, vals, k + 1, acc2);
        assert(crate::lexers::csv_lexer::build_entries(keys, vals, k, acc)
            == crate::lexers::csv_lexer::build_entries(keys, vals, k + 1, acc2));
    } else {
        assert(crate::lexers::csv_lexer::build_entries(keys, vals, k, acc) == acc);
    }
}

/// CSV carries no native containers: every value of every record of a
/// parsed headed table is a scalar.
pub proof fn lemma_csv_headed_cells_scalar(
    s: Seq<char>,
    records: Seq<Seq<(Seq<char>, ValueModel)>>,
)
    requires
        crate::lexers::csv_lexer::spec_csv_headed(s) == Ok::<ValueModel, MawuError>(
            ValueModel::CSVObject(records),
        ),
    ensures
        forall|r: int, q: int|
            0 <= r < records.len() && 0 <= q < records[r].len() ==> is_scalar_model(
                (#[trigger] records[r][q]).1,
            ),
{
    let rows = crate::lexers::csv_lexer::spec_csv_rows(s, 0)->Done_0;
    let keys = Seq::new(
        rows[0].len(),
        |i: int|
            if 0 <= i < rows[0].len() {
                rows[0][i].0
            } else {
                Seq::empty()
            },
    );
    lemma_headed_records_scalar(rows, keys, 1);
}

/// Every record the headed assembly yields holds scalar values only.
proof fn lemma_headed_records_scalar(
    rows: Seq<Seq<(Seq<char>, bool)>>,
    keys: Seq<Seq<char>>,
    idx: int,
)
    ensures
        crate::lexers::csv_lexer::spec_headed_records(rows, keys, idx) matches Ok(t) ==> forall|
            r: int,
            q: int,
        |
            0 <= r < t.len() && 0 <= q < t[r].len() ==> is_scalar_model(
                (#[trigger] t[r][q]).1,
            ),
    decreases rows.len() - idx,
{
    if 0 <= idx < rows.len() && rows[idx].len() <= keys.len() {
        lemma_headed_records_scalar(rows, keys, idx + 1);
        match crate::lexers::csv_lexer::spec_headed_records(rows, keys, idx + 1) {
            Ok(rest) => {
                let padded = crate::lexers::csv_lexer::pad_row(
                    crate::lexers::csv_lexer::convert_cells(rows[idx]),
                    keys.len() as int,
                );
                lemma_convert_cells_scalar(rows[idx]);
                lemma_pad_row_scalar(
                    crate::lexers::csv_lexer::convert_cells(rows[idx]),
                    keys.len() as int,
                );
                let first = crate::lexers::csv_lexer::build_entries(
                    keys,
                    padded,
                    0,
                    Seq::empty(),
                );
                lemma_build_entries_scalar(keys, padded, 0, Seq::empty());
                let t = seq![first] + rest;
                assert forall|r: int, q: int|
                    0 <= r < t.len() && 0 <= q < t[r].len() implies is_scalar_model(
                    (#[trigger] t[r][q]).1,
                ) by {
                    if r > 0 {
                        assert(t[r] == rest[r - 1]);
                    }
                }
            },
            Err(_) => {},
        }
    }
}

/// The missing-value policy pads and never cuts: every row of a parsed
/// headless table after the anchor row is at least as wide as the anchor
/// row, which is never padded.
pub proof fn lemma_headless_padding(s: Seq<char>, rows: Seq<Seq<ValueModel>>)
    requires
        crate::lexers::csv_lexer::spec_csv_headless(s) == Ok::<ValueModel, MawuError>(
            ValueModel::CSVArray(rows),
        ),
    ensures
        rows.len() >= 1,
        forall|k: int| 1 <= k < rows.len() ==> (#[trigger] rows[k]).len() >= rows[0].len(),
{
    let parsed = crate::lexers::csv_lexer::spec_csv_rows(s, 0)->Done_0;
    let w = parsed[0].len() as int;
    assert(rows == seq![crate::lexers::csv_lexer::convert_cells(parsed[0])]
        + crate::lexers::csv_lexer::padded_rows(parsed.drop_first(), w));
    assert(rows[0].len() == w);
    assert forall|k: int| 1 <= k < rows.len() implies (#[trigger] rows[k]).len()
        >= rows[0].len() by {
        assert(rows[k] == crate::lexers::csv_lexer::padded_rows(parsed.drop_first(), w)[k - 1]);
        assert(rows[k] == crate::lexers::csv_lexer::pad_row(
            crate::lexers::csv_lexer::convert_cells(parsed.drop_first()[k - 1]),
            w,
        ));
    }
}

/// The digit characters carry their digit values.
proof fn lemma_digit_char_value(d: int)
    requires
        0 <= d <= 9,
    ensures
        is_digit_char(digit_char_of(d)),
        char_digit(digit_char_of(d)) == d,
{
}

/// The decimal text of a natural number is all digits.
proof fn lemma_digits_of_all_digits(n: int)
    requires
        n >= 0,
    ensures
        all_digits(digits_of(n)),
        digits_of(n).len() >= 1,
        is_digit_char(digits_of(n)[0]),
    decreases n,
{
    if n < 10 {
        lemma_digit_char_value(if n <= 0 {
            0
        } else {
            n
        });
    } else {
        lemma_digits_of_all_digits(n / 10);
        lemma_digit_char_value(n % 10);
        let t = digits_of(n);
        assert(t == digits_of(n / 10).push(digit_char_of(n % 10)));
        assert forall|i: int| 0 <= i < t.len() implies is_digit_char(#[trigger] t[i]) by {
            if i < t.len() - 1 {
                assert(t[i] == digits_of(n / 10)[i]);
            }
        }
    }
}

/// Reading back the decimal text of a natural number yields the number.
proof fn lemma_digits_int_of_digits_of(n: int)
    requires
        n >= 0,
    ensures
        digits_int(digits_of(n)) == n,
    decreases n,
{
    if n < 10 {
        lemma_digit_char_value(if n <= 0 {
            0
        } else {
            n
        });
        let t = digits_of(n);
        assert(t.drop_last() =~= Seq::<char>::empty());
        assert(digits_int(Seq::<char>::empty()) == 0);
        assert(digits_int(t) == digits_int(t.drop_last()) * 10 + char_digit(t.last()));
    } else {
        lemma_digits_int_of_digits_of(n / 10);
        lemma_digit_char_value(n % 10);
        let t = digits_of(n);
        assert(t == digits_of(n / 10).push(digit_char_of(n % 10)));
        assert(t.drop_last() =~= digits_of(n / 10));
        assert(t.last() == digit_char_of(n % 10));
        assert(digits_int(t) == digits_int(t.drop_last()) * 10 + char_digit(t.last()));
        assert((n / 10) * 10 + n % 10 == n) by (nonlinear_arith)
            requires
                n >= 10,
        ;
    }
}

/// The unsigned-integer parse reads the decimal text of an unsigned value
/// back to the value itself.
pub proof fn lemma_parse_u64_digits_of(n: u64)
    ensures
        spec_parse_u64(digits_of(n as int)) == Some(n),
{
    lemma_digits_of_all_digits(n as int);
    lemma_digits_int_of_digits_of(n as int);
    let t = digits_of(n as int);
    assert(t[0] != '+');
}

/// A run of digits before a terminator is one whole number token: the
/// scan consumes exactly the digits and stops at the terminator.
proof fn lemma_number_scan_digits(s: Seq<char>, i: int, end: int)
    requires
        0 <= i <= end <= s.len(),
        forall|q: int| i <= q < end ==> is_digit_char(#[trigger] s[q]),
        end == s.len() || crate::utils::is_structural_char(s[end]) || crate::utils::is_ws_char(
            s[end],
        ),
    ensures
        spec_number_chars(s, i) == TokenStep::Done(s.subrange(i, end), end),
    decreases end - i,
{
    if i >= end {
        assert(s.subrange(i, end) =~= Seq::<char>::empty());
    } else {
        lemma_number_scan_digits(s, i + 1, end);
        assert(!crate::utils::is_structural_char(s[i]) && !crate::utils::is_ws_char(s[i]));
        assert(seq![s[i]] + s.subrange(i + 1, end) =~= s.subrange(i, end));
    }
}

/// Last write wins: after writing a key, reading that key yields the value
/// just written, and every other key reads as before.
pub proof fn lemma_put_get(
    entries: Seq<(Seq<char>, ValueModel)>,
    key: Seq<char>,
    value: ValueModel,
    other: Seq<char>,
)
    ensures
        crate::mawu_value::entries_get(
            crate::mawu_value::entries_put(entries, key, value),
            key,
        ) == Some(value),
        other != key ==> crate::mawu_value::entries_get(
            crate::mawu_value::entries_put(entries, key, value),
            other,
        ) == crate::mawu_value::entries_get(entries, other),
{
    let put = crate::mawu_value::entries_put(entries, key, value);
    crate::mawu_value::lemma_entries_find(entries, key);
    crate::mawu_value::lemma_entries_find(entries, other);
    crate::mawu_value::lemma_entries_find(put, key);
    crate::mawu_value::lemma_entries_find(put, other);
    let f = crate::mawu_value::entries_find(entries, key);
    if f >= 0 {
        assert(put =~= entries.update(f, (key, value)));
        assert(put[f].0 == key);
        assert(crate::mawu_value::entries_find(put, key) == f) by {
            if crate::mawu_value::entries_find(put, key) < f {
                assert(entries[crate::mawu_value::entries_find(put, key)].0 == key);
            }
            if crate::mawu_value::entries_find(put, key) > f {
                assert(put[f].0 != key);
            }
        }
    } else {
        assert(put =~= entries.push((key, value)));
        assert(put[put.len() - 1].0 == key);
        assert(crate::mawu_value::entries_find(put, key) == put.len() - 1) by {
            if crate::mawu_value::entries_find(put, key) < put.len() - 1 {
                assert(entries[crate::mawu_value::entries_find(put, key)].0 == key);
            }
        }
    }
    if other != key {
        let g = crate::mawu_value::entries_find(entries, other);
        let g2 = crate::mawu_value::entries_find(put, other);
        if g >= 0 {
            assert(put[g].0 == other);
            assert(g2 >= 0);
            assert(entries[g2].0 == other);
            assert(g2 == g) by {
                if g2 < g {
                    assert(entries[g2].0 == other);
                }
                if g2 > g {
                    assert(put[g].0 != other);
                }
            }
        } else {
            assert(g2 == -1) by {
                if g2 >= 0 {
                    assert(entries[g2].0 == other);
                }
            }
        }
    }
}

/// Writing a key keeps the keys unique: an entry list with no two equal
/// keys still has no two equal keys after a write, whether the write
/// overwrote in place or appended a fresh key.
pub proof fn lemma_put_keeps_unique(
    entries: Seq<(Seq<char>, ValueModel)>,
    key: Seq<char>,
    value: ValueModel,
)
    requires
        crate::mawu_value::entries_unique(entries),
    ensures
        crate::mawu_value::entries_unique(
            crate::mawu_value::entries_put(entries, key, value),
        ),
{
    let put = crate::mawu_value::entries_put(entries, key, value);
    crate::mawu_value::lemma_entries_find(entries, key);
    let f = crate::mawu_value::entries_find(entries, key);
    if f >= 0 {
        assert(entries[f].0 == key);
        assert forall|i: int, j: int| 0 <= i < j < put.len() implies (#[trigger] put[i]).0 != (
        #[trigger] put[j]).0 by {
            assert(entries[i].0 != entries[j].0);
        }
    } else {
        assert forall|i: int, j: int| 0 <= i < j < put.len() implies (#[trigger] put[i]).0 != (
        #[trigger] put[j]).0 by {
            if j == put.len() - 1 {
                assert(put[i] == entries[i]);
                assert(entries[i].0 != key);
            } else {
                assert(entries[i].0 != entries[j].0);
            }
        }
    }
}

/// Escaping reads the same from the front: the escaped text of a nonempty
/// text is the first character's escape followed by the escaped rest.
proof fn lemma_escape_front(t: Seq<char>)
    requires
        t.len() > 0,
    ensures
        escape_text(t) == esc_char(t[0]) + escape_text(t.drop_first()),
    decreases t.len(),
{
    if t.len() == 1 {
        assert(t.drop_last() =~= Seq::<char>::empty());
        assert(t.drop_first() =~= Seq::<char>::empty());
        assert(escape_text(t) == escape_text(t.drop_last()) + esc_char(t.last()));
        assert(esc_char(t[0]) + escape_text(t.drop_first()) =~= esc_char(t[0]));
    } else {
        let head = t.drop_last();
        lemma_escape_front(head);
        assert(head.drop_first() =~= t.drop_first().drop_last());
        assert(head[0] == t[0]);
        assert(t.drop_first().last() == t.last());
        assert(escape_text(t) == escape_text(head) + esc_char(t.last()));
        assert(escape_text(t.drop_first()) == escape_text(t.drop_first().drop_last()) + esc_char(
            t.drop_first().last(),
        ));
        assert((esc_char(t[0]) + escape_text(head.drop_first())) + esc_char(t.last())
            =~= esc_char(t[0]) + (escape_text(head.drop_first()) + esc_char(t.last())));
    }
}

/// A hexadecimal digit character reads back to its digit value.
proof fn lemma_hex_char_value(d: int)
    requires
        0 <= d <= 15,
    ensures
        crate::utils::is_hex_char(crate::serializers::json_serializer::hex_char_of(d)),
        crate::utils::hex_digit(crate::serializers::json_serializer::hex_char_of(d)) == d,
{
}

/// Scanning the escaped spelling of a text up to its closing quote decodes
/// the text back and stops just past the quote, whatever follows.
proof fn lemma_string_scan_escaped(s: Seq<char>, i: int, end: int, t: Seq<char>)
    requires
        0 <= i <= end <= s.len(),
        s.subrange(i, end) == escape_text(t) + seq!['"'],
    ensures
        crate::lexers::json_lexer::spec_json_string(s, i) == crate::lexers::json_lexer::TextStep::Done(
            t,
            end,
        ),
    decreases t.len(),
{
    let tail = s.subrange(i, end);
    if t.len() == 0 {
        assert(t =~= Seq::<char>::empty());
        assert(escape_text(t) =~= Seq::<char>::empty());
        assert(tail =~= seq!['"']);
        assert(s[i] == tail[0]);
        assert(i + 1 == end);
    } else {
        let c = t[0];
        lemma_escape_front(t);
        let rest = t.drop_first();
        let e = esc_char(c);
        assert(tail == (e + escape_text(rest)) + seq!['"']);
        let step: int = e.len() as int;
        assert(e.len() >= 1);
        assert forall|q: int| 0 <= q < e.len() implies s[i + q] == #[trigger] e[q] by {
            assert(tail[q] == e[q]);
            assert(tail[q] == s[i + q]);
        }
        assert forall|q: int|
            0 <= q < end - i - step implies #[trigger] s.subrange(i + step, end)[q] == (
            escape_text(rest) + seq!['"'])[q] by {
            assert(s.subrange(i + step, end)[q] == s[i + step + q]);
            assert(tail[step + q] == s[i + step + q]);
            assert(tail[step + q] == (escape_text(rest) + seq!['"'])[q]);
        }
        assert(s.subrange(i + step, end) =~= escape_text(rest) + seq!['"']);
        lemma_string_scan_escaped(s, i + step, end, rest);
        if c == '"' || c == '\\' || c == '/' || c == '\n' || c == '\r' || c == '\t' || c
            == '\u{0008}' || c == '\u{000C}' {
            assert(s[i] == '\\');
            assert(s[i + 1] == e[1]);
            assert(s[i + 1] != 'u');
            assert(crate::lexers::json_lexer::escape_char(s[i + 1]) == c);
            assert(seq![c] + rest =~= t);
            assert(crate::lexers::json_lexer::spec_json_string(s, i)
                == crate::lexers::json_lexer::TextStep::Done(t, end));
        } else if (c as u32) < 0x20 {
            let hi = c as u32 as int / 16;
            let lo = c as u32 as int % 16;
            let hc = crate::serializers::json_serializer::hex_char_of(hi);
            let lc = crate::serializers::json_serializer::hex_char_of(lo);
            assert(e == seq!['\\', 'u', '0', '0', hc, lc]);
            assert(s[i + 0] == e[0] && s[i + 1] == e[1] && s[i + 2] == e[2] && s[i + 3] == e[3]
                && s[i + 4] == e[4] && s[i + 5] == e[5]);
            assert(s[i] == '\\' && s[i + 1] == 'u');
            assert(crate::lexers::json_lexer::spec_json_string(s, i)
                == crate::lexers::json_lexer::spec_json_unicode_escape(s, i));
            let hex = s.subrange(i + 2, i + 6);
            assert(hex =~= seq!['0', '0', hc, lc]);
            lemma_hex_char_value(hi);
            lemma_hex_char_value(lo);
            lemma_hex_char_value(0);
            assert forall|q: int| 0 <= q < hex.len() implies crate::utils::is_hex_char(
                #[trigger] hex[q],
            ) by {
                if q == 0 || q == 1 {
                    assert(hex[q] == '0');
                } else if q == 2 {
                    assert(hex[q] == hc);
                } else {
                    assert(hex[q] == lc);
                }
            }
            assert(crate::utils::all_hex(hex));
            let h3 = hex.drop_last();
            let h2 = h3.drop_last();
            let h1 = h2.drop_last();
            let h0 = h1.drop_last();
            assert(h0.len() == 0 && crate::utils::hex_int(h0) == 0);
            assert(h1.last() == '0' && h2.last() == '0');
            assert(h3.last() == hc && hex.last() == lc);
            assert(crate::utils::hex_digit('0') == 0);
            assert(crate::utils::hex_int(h1) == crate::utils::hex_int(h0) * 16
                + crate::utils::hex_digit(h1.last()));
            assert(crate::utils::hex_int(h2) == crate::utils::hex_int(h1) * 16
                + crate::utils::hex_digit(h2.last()));
            assert(crate::utils::hex_int(h3) == crate::utils::hex_int(h2) * 16
                + crate::utils::hex_digit(h3.last()));
            assert(crate::utils::hex_int(hex) == crate::utils::hex_int(h3) * 16
                + crate::utils::hex_digit(hex.last()));
            assert((c as u32 as int / 16) * 16 + c as u32 as int % 16 == c as u32 as int)
                by (nonlinear_arith);
            assert(crate::utils::hex_int(hex) == c as u32 as int);
            assert(crate::utils::is_scalar_value(crate::utils::hex_int(hex)));
            crate::utils::lemma_char_of_scalar(c);
            assert(crate::utils::char_of_scalar(crate::utils::hex_int(hex)) == c);
            assert(seq![c] + rest =~= t);
            assert(crate::lexers::json_lexer::spec_json_string(s, i)
                == crate::lexers::json_lexer::TextStep::Done(t, end));
        } else {
            assert(e =~= seq![c]);
            assert(e[0] == c);
            assert(s[i + 0] == e[0]);
            assert(s[i] == c);
            assert(c != '"' && c != '\\');
            assert(!((c as u32) < 0x20));
            assert(seq![c] + rest =~= t);
            assert(crate::lexers::json_lexer::spec_json_string(s, i)
                == crate::lexers::json_lexer::TextStep::Done(t, end));
        }
    }
}

/// Whether a value's compact JSON text reads back to the value itself:
/// null, booleans, unsigned integers, strictly negative signed integers
/// and text always do, and arrays and objects do when all their element
/// values do and, for objects, no two entries share a key. A non-negative
/// signed integer reads back as an unsigned integer, a float goes through
/// the host's float parser, and a CSV table has no JSON text, so none of
/// those are covered.
pub open spec fn json_round_trips(m: ValueModel) -> bool
    decreases m,
{
    match m {
        ValueModel::Null => true,
        ValueModel::Bool(_) => true,
        ValueModel::Uint(_) => true,
        ValueModel::Int(v) => v < 0,
        ValueModel::Text(_) => true,
        ValueModel::Array(items) => forall|q: int|
            0 <= q < items.len() ==> json_round_trips(#[trigger] items[q]),
        ValueModel::Object(entries) => crate::mawu_value::entries_unique(entries)
            && forall|q: int|
            0 <= q < entries.len() ==> json_round_trips(#[trigger] entries[q].1),
        _ => false,
    }
}

/// The compact JSON text of a round-tripping value exists, is nonempty,
/// and opens with a character that is neither a blank nor one of the four
/// structural characters.
proof fn lemma_serialize_ok(m: ValueModel, d: int)
    requires
        json_round_trips(m),
    ensures
        spec_serialize_json(m, 0, d) is Ok,
        spec_serialize_json(m, 0, d)->Ok_0.len() >= 1,
        !crate::utils::is_ws_char(spec_serialize_json(m, 0, d)->Ok_0[0]),
        !crate::utils::is_structural_char(spec_serialize_json(m, 0, d)->Ok_0[0]),
    decreases m, 1int, 0int,
{
    match m {
        ValueModel::Null => {
            reveal_strlit("null");
        },
        ValueModel::Bool(b) => {
            reveal_strlit("true");
            reveal_strlit("false");
        },
        ValueModel::Uint(v) => {
            lemma_digits_of_all_digits(v as int);
        },
        ValueModel::Int(v) => {
            lemma_digits_of_all_digits(-(v as int));
        },
        ValueModel::Text(t) => {},
        ValueModel::Array(items) => {
            lemma_items_serialize_ok(items, items.len() as int, d);
            assert(items.subrange(0, items.len() as int) =~= items);
        },
        ValueModel::Object(entries) => {
            lemma_entries_serialize_ok(entries, entries.len() as int, d);
            assert(entries.subrange(0, entries.len() as int) =~= entries);
        },
        _ => {},
    }
}

/// The joined texts of the first elements of a round-tripping array exist.
proof fn lemma_items_serialize_ok(items: Seq<ValueModel>, p: int, d: int)
    requires
        forall|q: int| 0 <= q < items.len() ==> json_round_trips(#[trigger] items[q]),
        0 <= p <= items.len(),
    ensures
        crate::serializers::json_serializer::spec_json_items(items.subrange(0, p), 0, d) is Ok,
    decreases items, 0int, p,
{
    if p > 0 {
        lemma_items_serialize_ok(items, p - 1, d);
        assert(items.subrange(0, p).drop_last() =~= items.subrange(0, p - 1));
        lemma_serialize_ok(items[p - 1], crate::serializers::json_serializer::deeper(d));
        assert(items.subrange(0, p).last() == items[p - 1]);
    }
}

/// The joined texts of the first entries of a round-tripping object exist.
proof fn lemma_entries_serialize_ok(entries: Seq<(Seq<char>, ValueModel)>, p: int, d: int)
    requires
        forall|q: int| 0 <= q < entries.len() ==> json_round_trips(#[trigger] entries[q].1),
        0 <= p <= entries.len(),
    ensures
        crate::serializers::json_serializer::spec_json_entries(
            entries.subrange(0, p),
            0,
            d,
        ) is Ok,
    decreases entries, 0int, p,
{
    if p > 0 {
        lemma_entries_serialize_ok(entries, p - 1, d);
        assert(entries.subrange(0, p).drop_last() =~= entries.subrange(0, p - 1));
        lemma_serialize_ok(entries[p - 1].1, crate::serializers::json_serializer::deeper(d));
        assert(entries.subrange(0, p).last() == entries[p - 1]);
    }
}

/// The compact text of an array's elements read from the front: the text
/// of the element at `k`, a comma, and the texts of the elements after it.
spec fn items_tail_text(items: Seq<ValueModel>, k: int, d: int) -> Seq<char>
    decreases items.len() - k,
{
    if k < 0 || k >= items.len() {
        Seq::empty()
    } else {
        let head = spec_serialize_json(
            items[k],
            0,
            crate::serializers::json_serializer::deeper(d),
        )->Ok_0;
        if k == items.len() - 1 {
            head
        } else {
            head + seq![','] + items_tail_text(items, k + 1, d)
        }
    }
}

/// The compact text of an object's entries read from the front.
spec fn entries_tail_text(
    entries: Seq<(Seq<char>, ValueModel)>,
    k: int,
    d: int,
) -> Seq<char>
    decreases entries.len() - k,
{
    if k < 0 || k >= entries.len() {
        Seq::empty()
    } else {
        let head = seq!['"'] + escape_text(entries[k].0) + seq!['"', ':'] + spec_serialize_json(
            entries[k].1,
            0,
            crate::serializers::json_serializer::deeper(d),
        )->Ok_0;
        if k == entries.len() - 1 {
            head
        } else {
            head + seq![','] + entries_tail_text(entries, k + 1, d)
        }
    }
}

/// Dropping the last element takes its text and the comma before it off
/// the tail text.
proof fn lemma_items_tail_extend(items: Seq<ValueModel>, k: int, d: int)
    requires
        0 <= k <= items.len() - 2,
    ensures
        items_tail_text(items, k, d) == items_tail_text(items.drop_last(), k, d) + seq![',']
            + spec_serialize_json(
            items.last(),
            0,
            crate::serializers::json_serializer::deeper(d),
        )->Ok_0,
    decreases items.len() - k,
{
    let head = items.drop_last();
    let lt = spec_serialize_json(
        items.last(),
        0,
        crate::serializers::json_serializer::deeper(d),
    )->Ok_0;
    let et = spec_serialize_json(
        items[k],
        0,
        crate::serializers::json_serializer::deeper(d),
    )->Ok_0;
    assert(head[k] == items[k]);
    if k == items.len() - 2 {
        assert(items_tail_text(items, k + 1, d) == lt);
        assert(items_tail_text(head, k, d) == et);
        assert(items_tail_text(items, k, d) == et + seq![','] + lt);
    } else {
        lemma_items_tail_extend(items, k + 1, d);
        assert(items_tail_text(items, k, d) == et + seq![','] + items_tail_text(
            items,
            k + 1,
            d,
        ));
        assert(items_tail_text(head, k, d) == et + seq![','] + items_tail_text(head, k + 1, d));
        assert((et + seq![','] + (items_tail_text(head, k + 1, d) + seq![','] + lt)) =~= ((et
            + seq![','] + items_tail_text(head, k + 1, d)) + seq![','] + lt));
    }
}

/// Dropping the last entry takes its text and the comma before it off the
/// tail text.
proof fn lemma_entries_tail_extend(entries: Seq<(Seq<char>, ValueModel)>, k: int, d: int)
    requires
        0 <= k <= entries.len() - 2,
    ensures
        entries_tail_text(entries, k, d) == entries_tail_text(entries.drop_last(), k, d)
            + seq![','] + (seq!['"'] + escape_text(entries.last().0) + seq!['"', ':']
            + spec_serialize_json(
            entries.last().1,
            0,
            crate::serializers::json_serializer::deeper(d),
        )->Ok_0),
    decreases entries.len() - k,
{
    let head = entries.drop_last();
    let lt = seq!['"'] + escape_text(entries.last().0) + seq!['"', ':'] + spec_serialize_json(
        entries.last().1,
        0,
        crate::serializers::json_serializer::deeper(d),
    )->Ok_0;
    let et = seq!['"'] + escape_text(entries[k].0) + seq!['"', ':'] + spec_serialize_json(
        entries[k].1,
        0,
        crate::serializers::json_serializer::deeper(d),
    )->Ok_0;
    assert(head[k] == entries[k]);
    if k == entries.len() - 2 {
        assert(entries_tail_text(entries, k + 1, d) == lt);
        assert(entries_tail_text(head, k, d) == et);
        assert(entries_tail_text(entries, k, d) == et + seq![','] + lt);
    } else {
        lemma_entries_tail_extend(entries, k + 1, d);
        assert(entries_tail_text(entries, k, d) == et + seq![','] + entries_tail_text(
            entries,
            k + 1,
            d,
        ));
        assert(entries_tail_text(head, k, d) == et + seq![','] + entries_tail_text(
            head,
            k + 1,
            d,
        ));
        assert((et + seq![','] + (entries_tail_text(head, k + 1, d) + seq![','] + lt)) =~= ((et
            + seq![','] + entries_tail_text(head, k + 1, d)) + seq![','] + lt));
    }
}

/// The serializer's joined element texts equal the tail text read from the
/// front.
proof fn lemma_items_join_eq(items: Seq<ValueModel>, d: int)
    requires
        forall|q: int| 0 <= q < items.len() ==> json_round_trips(#[trigger] items[q]),
        items.len() >= 1,
    ensures
        crate::serializers::json_serializer::spec_json_items(items, 0, d)
            == Ok::<Seq<char>, MawuError>(items_tail_text(items, 0, d)),
    decreases items.len(),
{
    lemma_items_serialize_ok(items, items.len() as int, d);
    assert(items.subrange(0, items.len() as int) =~= items);
    lemma_serialize_ok(items.last(), crate::serializers::json_serializer::deeper(d));
    if items.len() == 1 {
        assert(items.drop_last() =~= Seq::<ValueModel>::empty());
        assert(items_tail_text(items, 0, d) == spec_serialize_json(
            items[0],
            0,
            crate::serializers::json_serializer::deeper(d),
        )->Ok_0);
        assert(Seq::<char>::empty() + items_tail_text(items, 0, d) =~= items_tail_text(
            items,
            0,
            d,
        ));
    } else {
        let head = items.drop_last();
        assert(forall|q: int| 0 <= q < head.len() ==> head[q] == items[q]);
        lemma_items_join_eq(head, d);
        lemma_items_tail_extend(items, 0, d);
    }
}

/// The serializer's joined entry texts equal the tail text read from the
/// front.
proof fn lemma_entries_join_eq(entries: Seq<(Seq<char>, ValueModel)>, d: int)
    requires
        forall|q: int| 0 <= q < entries.len() ==> json_round_trips(#[trigger] entries[q].1),
        entries.len() >= 1,
    ensures
        crate::serializers::json_serializer::spec_json_entries(entries, 0, d)
            == Ok::<Seq<char>, MawuError>(entries_tail_text(entries, 0, d)),
    decreases entries.len(),
{
    lemma_entries_serialize_ok(entries, entries.len() as int, d);
    assert(entries.subrange(0, entries.len() as int) =~= entries);
    lemma_serialize_ok(entries.last().1, crate::serializers::json_serializer::deeper(d));
    let lt = seq!['"'] + escape_text(entries.last().0) + seq!['"', ':'] + spec_serialize_json(
        entries.last().1,
        0,
        crate::serializers::json_serializer::deeper(d),
    )->Ok_0;
    assert((seq!['"'] + escape_text(entries.last().0) + seq!['"'] + seq![':']
        + spec_serialize_json(
        entries.last().1,
        0,
        crate::serializers::json_serializer::deeper(d),
    )->Ok_0) =~= lt);
    if entries.len() == 1 {
        assert(entries.drop_last() =~= Seq::<(Seq<char>, ValueModel)>::empty());
        assert(entries_tail_text(entries, 0, d) == lt);
        assert(Seq::<char>::empty() + seq![','] + lt =~= seq![','] + lt);
        assert(Seq::<char>::empty() + lt =~= lt);
    } else {
        let head = entries.drop_last();
        assert(forall|q: int| 0 <= q < head.len() ==> head[q] == entries[q]);
        lemma_entries_join_eq(head, d);
        lemma_entries_tail_extend(entries, 0, d);
    }
}


/// Splitting a known stretch of text: where the text from `i` to `end`
/// is one piece followed by another, the first piece lies character by
/// character at `i`, and the rest of the stretch is the second piece.
proof fn lemma_chop(s: Seq<char>, i: int, end: int, a: Seq<char>, b: Seq<char>)
    requires
        0 <= i <= end <= s.len(),
        s.subrange(i, end) == a + b,
    ensures
        forall|q: int| 0 <= q < a.len() ==> s[i + q] == #[trigger] a[q],
        s.subrange(i + a.len(), end) == b,
        a.len() + b.len() == end - i,
{
    assert((a + b).len() == a.len() + b.len());
    assert(s.subrange(i, end).len() == end - i);
    assert forall|q: int| 0 <= q < a.len() implies s[i + q] == #[trigger] a[q] by {
        assert(s.subrange(i, end)[q] == s[i + q]);
        assert((a + b)[q] == a[q]);
    }
    assert forall|q: int|
        0 <= q < b.len() implies #[trigger] s.subrange(i + a.len(), end)[q] == b[q] by {
        assert(s.subrange(i + a.len(), end)[q] == s[i + a.len() + q]);
        assert(s.subrange(i, end)[a.len() + q] == s[i + a.len() + q]);
        assert((a + b)[a.len() + q] == b[q]);
    }
    assert(s.subrange(i + a.len(), end) =~= b);
}

/// Parsing a round-tripping value out of a larger text: where the text
/// from `i` to `end` is the value's compact JSON text and a structural
/// character, a blank or the end of input follows, the parse yields the
/// value itself and stops exactly at `end`.
#[verifier::rlimit(100)]
pub proof fn lemma_value_embedded(s: Seq<char>, i: int, end: int, m: ValueModel, d: int)
    requires
        json_round_trips(m),
        0 <= i <= end <= s.len(),
        spec_serialize_json(m, 0, d) is Ok,
        s.subrange(i, end) == spec_serialize_json(m, 0, d)->Ok_0,
        end == s.len() || crate::utils::is_structural_char(s[end]) || crate::utils::is_ws_char(
            s[end],
        ),
    ensures
        spec_json_value(s, i) == JsonStep::Value(m, end),
    decreases m, 1int, 0int,
{
    let text = s.subrange(i, end);
    lemma_serialize_ok(m, d);
    assert(s[i] == text[0]) by {
        assert(text[0] == s[i + 0]);
    }
    assert(spec_skip_ws(s, i) == i);
    match m {
        ValueModel::Null => {
            reveal_strlit("null");
            assert(text == "null"@ + Seq::<char>::empty()) by {
                assert("null"@ + Seq::<char>::empty() =~= "null"@);
            }
            lemma_chop(s, i, end, "null"@, Seq::empty());
            assert(s[i + 0] == "null"@[0] && s[i + 1] == "null"@[1] && s[i + 2] == "null"@[2]
                && s[i + 3] == "null"@[3]);
            assert(spec_json_value(s, i) == JsonStep::Value(ValueModel::Null, i + 4));
        },
        ValueModel::Bool(b) => {
            if b {
                reveal_strlit("true");
                assert(text == "true"@ + Seq::<char>::empty()) by {
                    assert("true"@ + Seq::<char>::empty() =~= "true"@);
                }
                lemma_chop(s, i, end, "true"@, Seq::empty());
                assert(s[i + 0] == "true"@[0] && s[i + 1] == "true"@[1] && s[i + 2]
                    == "true"@[2] && s[i + 3] == "true"@[3]);
                assert(spec_json_value(s, i) == JsonStep::Value(ValueModel::Bool(true), i + 4));
            } else {
                reveal_strlit("false");
                assert(text == "false"@ + Seq::<char>::empty()) by {
                    assert("false"@ + Seq::<char>::empty() =~= "false"@);
                }
                lemma_chop(s, i, end, "false"@, Seq::empty());
                assert(s[i + 0] == "false"@[0] && s[i + 1] == "false"@[1] && s[i + 2]
                    == "false"@[2] && s[i + 3] == "false"@[3] && s[i + 4] == "false"@[4]);
                assert(spec_json_value(s, i) == JsonStep::Value(
                    ValueModel::Bool(false),
                    i + 5,
                ));
            }
        },
        ValueModel::Uint(v) => {
            lemma_digits_of_all_digits(v as int);
            lemma_parse_u64_digits_of(v);
            assert(text == digits_of(v as int) + Seq::<char>::empty()) by {
                assert(digits_of(v as int) + Seq::<char>::empty() =~= digits_of(v as int));
            }
            lemma_chop(s, i, end, digits_of(v as int), Seq::empty());
            assert forall|q: int| i <= q < end implies is_digit_char(#[trigger] s[q]) by {
                assert(s[i + (q - i)] == digits_of(v as int)[q - i]);
            }
            assert(s[i] == digits_of(v as int)[0]) by {
                assert(s[i + 0] == digits_of(v as int)[0]);
            }
            lemma_number_scan_digits(s, i + 1, end);
            assert(seq![s[i]] + s.subrange(i + 1, end) =~= text);
            assert(scalar_model_of_text(text) == ValueModel::Uint(v));
            assert(!crate::utils::is_structural_char(s[i]));
        },
        ValueModel::Int(v) => {
            let mag = -(v as int);
            lemma_digits_of_all_digits(mag);
            lemma_digits_int_of_digits_of(mag);
            assert(text == seq!['-'] + digits_of(mag));
            lemma_chop(s, i, end, seq!['-'], digits_of(mag));
            assert(s[i] == '-');
            assert forall|q: int| i + 1 <= q < end implies is_digit_char(#[trigger] s[q]) by {
                assert(s[i + 1 + (q - i - 1)] == digits_of(mag)[q - i - 1]);
            }
            lemma_number_scan_digits(s, i + 1, end);
            assert(s.subrange(i + 1, end) == digits_of(mag));
            assert(seq![s[i]] + s.subrange(i + 1, end) =~= text);
            assert(text[0] == '-');
            assert(spec_parse_u64(text) is None);
            assert(text.subrange(1, text.len() as int) =~= digits_of(mag));
            assert(spec_parse_i64(text) == Some(v));
            assert(scalar_model_of_text(text) == ValueModel::Int(v));
        },
        ValueModel::Text(t) => {
            assert(text == seq!['"'] + (escape_text(t) + seq!['"'])) by {
                assert(seq!['"'] + escape_text(t) + seq!['"'] =~= seq!['"'] + (escape_text(t)
                    + seq!['"']));
            }
            lemma_chop(s, i, end, seq!['"'], escape_text(t) + seq!['"']);
            assert(s[i] == '"');
            lemma_string_scan_escaped(s, i + 1, end, t);
            assert(spec_json_value(s, i) == JsonStep::Value(ValueModel::Text(t), end));
        },
        ValueModel::Array(items) => {
            if items.len() == 0 {
                lemma_items_serialize_ok(items, 0, d);
                assert(items.subrange(0, 0) =~= items);
                assert(crate::serializers::json_serializer::spec_json_items(items, 0, d)
                    == Ok::<Seq<char>, MawuError>(Seq::empty()));
                assert(text =~= seq!['[', ']']);
                assert(s[i] == '[');
                assert(s[i + 1] == ']') by {
                    assert(text[1] == s[i + 1]);
                }
                assert(spec_skip_ws(s, i + 1) == i + 1);
                assert(crate::lexers::json_lexer::spec_json_array(s, i + 1, Seq::empty())
                    == JsonStep::Value(ValueModel::Array(Seq::empty()), i + 2));
                assert(ValueModel::Array(Seq::<ValueModel>::empty()) == m) by {
                    assert(Seq::<ValueModel>::empty() =~= items);
                }
            } else {
                lemma_items_join_eq(items, d);
                let body = items_tail_text(items, 0, d);
                assert(text == seq!['['] + (body + seq![']'])) by {
                    assert(seq!['['] + body + seq![']'] =~= seq!['['] + (body + seq![']']));
                }
                lemma_chop(s, i, end, seq!['['], body + seq![']']);
                assert(s[i] == '[');
                assert(items.subrange(0, 0) =~= Seq::<ValueModel>::empty());
                lemma_array_members(s, i + 1, end, items, 0, Seq::empty(), d);
            }
        },
        ValueModel::Object(entries) => {
            if entries.len() == 0 {
                lemma_entries_serialize_ok(entries, 0, d);
                assert(entries.subrange(0, 0) =~= entries);
                assert(crate::serializers::json_serializer::spec_json_entries(entries, 0, d)
                    == Ok::<Seq<char>, MawuError>(Seq::empty()));
                assert(text =~= seq!['{', '}']);
                assert(s[i] == '{');
                assert(s[i + 1] == '}') by {
                    assert(text[1] == s[i + 1]);
                }
                assert(spec_skip_ws(s, i + 1) == i + 1);
                assert(crate::lexers::json_lexer::spec_json_object(s, i + 1, Seq::empty())
                    == JsonStep::Value(ValueModel::Object(Seq::empty()), i + 2));
                assert(ValueModel::Object(Seq::<(Seq<char>, ValueModel)>::empty()) == m) by {
                    assert(Seq::<(Seq<char>, ValueModel)>::empty() =~= entries);
                }
            } else {
                lemma_entries_join_eq(entries, d);
                let body = entries_tail_text(entries, 0, d);
                assert(text == seq!['{'] + (body + seq!['}'])) by {
                    assert(seq!['{'] + body + seq!['}'] =~= seq!['{'] + (body + seq!['}']));
                }
                lemma_chop(s, i, end, seq!['{'], body + seq!['}']);
                assert(s[i] == '{');
                assert(entries.subrange(0, 0) =~= Seq::<(Seq<char>, ValueModel)>::empty());
                lemma_object_members(s, i + 1, end, entries, 0, Seq::empty(), d);
            }
        },
        _ => {},
    }
}

/// Parsing the remaining elements of an array: where the text from `j` to
/// `end` is the elements' texts from the one at `k` on, comma-separated
/// and closed by the bracket, the member loop yields the whole array and
/// stops just past the bracket.
#[verifier::rlimit(100)]
proof fn lemma_array_members(
    s: Seq<char>,
    j: int,
    end: int,
    items: Seq<ValueModel>,
    k: int,
    acc: Seq<ValueModel>,
    d: int,
)
    requires
        forall|q: int| 0 <= q < items.len() ==> json_round_trips(#[trigger] items[q]),
        0 <= k < items.len(),
        0 <= j <= end <= s.len(),
        acc == items.subrange(0, k),
        s.subrange(j, end) == items_tail_text(items, k, d) + seq![']'],
    ensures
        crate::lexers::json_lexer::spec_json_array(s, j, acc) == JsonStep::Value(
            ValueModel::Array(items),
            end,
        ),
    decreases items, 0int, items.len() - k,
{
    let dd = crate::serializers::json_serializer::deeper(d);
    lemma_serialize_ok(items[k], dd);
    let et = spec_serialize_json(items[k], 0, dd)->Ok_0;
    if k == items.len() - 1 {
        assert(items_tail_text(items, k, d) == et);
        lemma_chop(s, j, end, et, seq![']']);
        assert(s[j] == et[0]) by {
            assert(s[j + 0] == et[0]);
        }
        assert(spec_skip_ws(s, j) == j);
        assert(s[j] != ']' && s[j] != ',');
        assert(s[j + et.len()] == ']') by {
            assert(s.subrange(j + et.len(), end)[0] == s[j + et.len()]);
        }
        assert(s.subrange(j, j + et.len()) =~= et) by {
            assert(forall|q: int|
                0 <= q < et.len() ==> #[trigger] s.subrange(j, j + et.len())[q] == s[j + q]);
        }
        lemma_value_embedded(s, j, j + et.len(), items[k], dd);
        let n = j + et.len();
        assert(spec_json_value(s, j) == JsonStep::Value(items[k], n));
        assert(crate::lexers::json_lexer::adv_pos(s, j, n) == n);
        assert(crate::lexers::json_lexer::spec_json_array(s, j, acc)
            == crate::lexers::json_lexer::spec_json_array(s, n, acc.push(items[k])));
        assert(spec_skip_ws(s, n) == n);
        assert(crate::lexers::json_lexer::spec_json_array(s, n, acc.push(items[k]))
            == JsonStep::Value(ValueModel::Array(acc.push(items[k])), n + 1));
        assert(acc.push(items[k]) =~= items);
        assert(n + 1 == end);
    } else {
        let tail = items_tail_text(items, k + 1, d);
        assert(items_tail_text(items, k, d) == et + seq![','] + tail);
        assert(s.subrange(j, end) == et + (seq![','] + tail + seq![']'])) by {
            assert((et + seq![','] + tail) + seq![']'] =~= et + (seq![','] + tail
                + seq![']']));
        }
        lemma_chop(s, j, end, et, seq![','] + tail + seq![']']);
        assert(s[j] == et[0]) by {
            assert(s[j + 0] == et[0]);
        }
        assert(spec_skip_ws(s, j) == j);
        assert(s[j] != ']' && s[j] != ',');
        let n = j + et.len();
        assert(s[n] == ',') by {
            assert(s.subrange(n, end)[0] == s[n]);
        }
        assert(s.subrange(j, n) =~= et) by {
            assert(forall|q: int|
                0 <= q < et.len() ==> #[trigger] s.subrange(j, n)[q] == s[j + q]);
        }
        lemma_value_embedded(s, j, n, items[k], dd);
        assert(spec_json_value(s, j) == JsonStep::Value(items[k], n));
        assert(crate::lexers::json_lexer::adv_pos(s, j, n) == n);
        assert(crate::lexers::json_lexer::spec_json_array(s, j, acc)
            == crate::lexers::json_lexer::spec_json_array(s, n, acc.push(items[k])));
        assert(spec_skip_ws(s, n) == n);
        assert(s.subrange(n, end) == seq![','] + (tail + seq![']'])) by {
            assert(seq![','] + tail + seq![']'] =~= seq![','] + (tail + seq![']']));
        }
        lemma_chop(s, n, end, seq![','], tail + seq![']']);
        assert(acc.push(items[k]) =~= items.subrange(0, k + 1));
        lemma_array_members(s, n + 1, end, items, k + 1, acc.push(items[k]), d);
        assert(crate::lexers::json_lexer::spec_json_array(s, n, acc.push(items[k]))
            == crate::lexers::json_lexer::spec_json_array(s, n + 1, acc.push(items[k])));
    }
}

/// Parsing the remaining entries of an object: where the text from `j` to
/// `end` is the entries' texts from the one at `k` on, comma-separated and
/// closed by the brace, the member loop yields the whole object and stops
/// just past the brace. The object's unique keys make every written key a
/// fresh one, so the entries come back in their order.
#[verifier::rlimit(100)]
proof fn lemma_object_members(
    s: Seq<char>,
    j: int,
    end: int,
    entries: Seq<(Seq<char>, ValueModel)>,
    k: int,
    acc: Seq<(Seq<char>, ValueModel)>,
    d: int,
)
    requires
        crate::mawu_value::entries_unique(entries),
        forall|q: int| 0 <= q < entries.len() ==> json_round_trips(#[trigger] entries[q].1),
        0 <= k < entries.len(),
        0 <= j <= end <= s.len(),
        acc == entries.subrange(0, k),
        s.subrange(j, end) == entries_tail_text(entries, k, d) + seq!['}'],
    ensures
        crate::lexers::json_lexer::spec_json_object(s, j, acc) == JsonStep::Value(
            ValueModel::Object(entries),
            end,
        ),
    decreases entries, 0int, entries.len() - k,
{
    let dd = crate::serializers::json_serializer::deeper(d);
    lemma_serialize_ok(entries[k].1, dd);
    let key = entries[k].0;
    let vt = spec_serialize_json(entries[k].1, 0, dd)->Ok_0;
    let et = seq!['"'] + escape_text(key) + seq!['"', ':'] + vt;
    let suffix: Seq<char> = if k == entries.len() - 1 {
        seq!['}']
    } else {
        seq![','] + entries_tail_text(entries, k + 1, d) + seq!['}']
    };
    assert(s.subrange(j, end) == et + suffix) by {
        if k == entries.len() - 1 {
            assert(entries_tail_text(entries, k, d) == et);
        } else {
            assert(entries_tail_text(entries, k, d) == et + seq![','] + entries_tail_text(
                entries,
                k + 1,
                d,
            ));
            assert((et + seq![','] + entries_tail_text(entries, k + 1, d)) + seq!['}'] =~= et + (
            seq![','] + entries_tail_text(entries, k + 1, d) + seq!['}']));
        }
    }
    assert(et == seq!['"'] + ((escape_text(key) + seq!['"']) + (seq![':'] + vt))) by {
        assert(seq!['"'] + escape_text(key) + seq!['"', ':'] + vt =~= seq!['"'] + ((escape_text(
            key,
        ) + seq!['"']) + (seq![':'] + vt)));
    }
    assert(s.subrange(j, end) == seq!['"'] + (((escape_text(key) + seq!['"']) + (seq![':'] + vt))
        + suffix)) by {
        assert((seq!['"'] + ((escape_text(key) + seq!['"']) + (seq![':'] + vt))) + suffix
            =~= seq!['"'] + (((escape_text(key) + seq!['"']) + (seq![':'] + vt)) + suffix));
    }
    lemma_chop(s, j, end, seq!['"'], ((escape_text(key) + seq!['"']) + (seq![':'] + vt))
        + suffix);
    assert(s[j] == '"') by {
        assert(s[j + 0] == seq!['"'][0]);
    }
    assert(spec_skip_ws(s, j) == j);
    let whole = ((escape_text(key) + seq!['"']) + (seq![':'] + vt)) + suffix;
    assert(seq!['"'].len() == 1);
    assert(s.subrange(j + 1, end) == whole);
    assert(whole =~= (escape_text(key) + seq!['"']) + ((seq![':'] + vt) + suffix));
    assert(s.subrange(j + 1, end) == (escape_text(key) + seq!['"']) + ((seq![':'] + vt)
        + suffix));
    lemma_chop(s, j + 1, end, escape_text(key) + seq!['"'], (seq![':'] + vt) + suffix);
    let kpos = j + 1 + escape_text(key).len() + 1;
    assert(s.subrange(j + 1, kpos) =~= escape_text(key) + seq!['"']) by {
        assert(forall|q: int|
            0 <= q < escape_text(key).len() + 1 ==> #[trigger] s.subrange(j + 1, kpos)[q] == s[j
                + 1 + q]);
    }
    lemma_string_scan_escaped(s, j + 1, kpos, key);
    assert(s.subrange(kpos, end) == seq![':'] + (vt + suffix)) by {
        assert((seq![':'] + vt) + suffix =~= seq![':'] + (vt + suffix));
    }
    lemma_chop(s, kpos, end, seq![':'], vt + suffix);
    assert(s[kpos] == ':') by {
        assert(s[kpos + 0] == seq![':'][0]);
    }
    assert(spec_skip_ws(s, kpos) == kpos);
    assert(crate::lexers::json_lexer::adv_pos(s, j, kpos + 1) == kpos + 1);
    lemma_chop(s, kpos + 1, end, vt, suffix);
    let n = kpos + 1 + vt.len();
    assert(s.subrange(kpos + 1, n) =~= vt) by {
        assert(forall|q: int|
            0 <= q < vt.len() ==> #[trigger] s.subrange(kpos + 1, n)[q] == s[kpos + 1 + q]);
    }
    assert(s[n] == suffix[0]) by {
        assert(s.subrange(n, end)[0] == s[n]);
    }
    lemma_value_embedded(s, kpos + 1, n, entries[k].1, dd);
    assert(crate::lexers::json_lexer::adv_pos(s, j, n) == n);
    crate::mawu_value::lemma_entries_find(acc, key);
    assert(crate::mawu_value::entries_find(acc, key) == -1) by {
        if crate::mawu_value::entries_find(acc, key) >= 0 {
            let w = crate::mawu_value::entries_find(acc, key);
            assert(acc[w] == entries[w]);
            assert(entries[w].0 != entries[k].0);
        }
    }
    let acc2 = crate::mawu_value::entries_put(acc, key, entries[k].1);
    assert(acc2 == acc.push((key, entries[k].1)));
    assert((key, entries[k].1) == entries[k]);
    assert(acc2 =~= entries.subrange(0, k + 1));
    if k == entries.len() - 1 {
        assert(s[n] == '}');
        assert(spec_skip_ws(s, n) == n);
        assert(acc2 =~= entries);
        assert(crate::lexers::json_lexer::spec_json_object(s, n, acc2) == JsonStep::Value(
            ValueModel::Object(acc2),
            n + 1,
        ));
        assert(n + 1 == end);
    } else {
        assert(s[n] == ',');
        assert(spec_skip_ws(s, n) == n);
        assert(s.subrange(n, end) == seq![','] + (entries_tail_text(entries, k + 1, d)
            + seq!['}'])) by {
            assert(seq![','] + entries_tail_text(entries, k + 1, d) + seq!['}'] =~= seq![','] + (
            entries_tail_text(entries, k + 1, d) + seq!['}']));
        }
        lemma_chop(s, n, end, seq![','], entries_tail_text(entries, k + 1, d) + seq!['}']);
        lemma_object_members(s, n + 1, end, entries, k + 1, acc2, d);
    }
}

/// The round trip: parsing the serializer's compact JSON text of a
/// round-tripping value yields the value itself. Together with
/// [`lemma_json_parse_deterministic`] this also gives idempotence: parsing
/// that text twice yields the same value both times.
pub proof fn lemma_json_round_trip(m: ValueModel)
    requires
        json_round_trips(m),
    ensures
        spec_serialize_json(m, 0, 0) is Ok,
        spec_json(spec_serialize_json(m, 0, 0)->Ok_0) == Ok::<ValueModel, MawuError>(m),
{
    lemma_serialize_ok(m, 0);
    let text = spec_serialize_json(m, 0, 0)->Ok_0;
    assert(text.subrange(0, text.len() as int) =~= text);
    lemma_value_embedded(text, 0, text.len() as int, m, 0);
}

} // verus!
