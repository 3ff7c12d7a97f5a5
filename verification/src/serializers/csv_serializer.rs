//! The CSV serializer: the headed variant requires a headed table value and
//! derives its header row from the key list of the first record; the
//! headless variant requires a headless table. A cell may hold scalars or an
//! array of scalars; anything else is refused with its variant named.

use vstd::prelude::*;

use crate::convert::float_text_of;
use crate::convert::string_from_chars;
use crate::errors::CsvError;
use crate::errors::CsvWriteError;
use crate::errors::MawuError;
use crate::mawu_value::entries_get;
use crate::mawu_value::model_kind;
use crate::mawu_value::MawuValue;
use crate::mawu_value::ValueModel;
use crate::numbers::digits_of;
use crate::numbers::int_text_of;
use crate::serializers::json_serializer::indent_text;
use crate::serializers::json_serializer::push_seq;

verus! {

broadcast use
    vstd::seq::axiom_seq_index_decreases,
    vstd::seq_lib::group_seq_lib_default,
    vstd::seq::axiom_seq_subrange_decreases;

/// The quoted spelling of a cell text: every quote doubled.
pub open spec fn double_quotes(t: Seq<char>) -> Seq<char>
    decreases t.len(),
{
    if t.len() == 0 {
        Seq::empty()
    } else {
        double_quotes(t.drop_last()) + (if t.last() == '"' {
            seq!['"', '"']
        } else {
            seq![t.last()]
        })
    }
}

/// What serializing one cell yields: text quoted with its quotes doubled,
/// numbers and booleans in their canonical spellings, null as nothing, an
/// array of scalars bracket-wrapped and comma-joined, and every other
/// container refused with its variant named.
pub open spec fn spec_csv_cell(m: ValueModel, spaces: int) -> Result<Seq<char>, MawuError>
    decreases m, 1int,
{
    let ws = indent_text(spaces, 1);
    match m {
        ValueModel::Text(t) => Ok(ws + seq!['"'] + double_quotes(t) + seq!['"']),
        ValueModel::Uint(v) => Ok(ws + digits_of(v as int)),
        ValueModel::Int(v) => Ok(ws + int_text_of(v as int)),
        ValueModel::Float(b) => Ok(ws + float_text_of(b)),
        ValueModel::Bool(b) => Ok(ws + if b {
            "true"@
        } else {
            "false"@
        }),
        ValueModel::Null => Ok(Seq::empty()),
        ValueModel::Array(items) => match spec_csv_cells(items, spaces) {
            Ok(body) => Ok(ws + seq!['['] + body + seq![']']),
            Err(e) => Err(e),
        },
        _ => Err(
            MawuError::CsvError(CsvError::WriteError(CsvWriteError::UnallowedType(model_kind(m)))),
        ),
    }
}

/// The comma-joined texts of a list of cells.
pub open spec fn spec_csv_cells(items: Seq<ValueModel>, spaces: int) -> Result<
    Seq<char>,
    MawuError,
>
    decreases items, 0int,
{
    if items.len() == 0 {
        Ok(Seq::empty())
    } else {
        match spec_csv_cells(items.drop_last(), spaces) {
            Ok(pre) => match spec_csv_cell(items.last(), spaces) {
                Ok(t) => if items.len() == 1 {
                    Ok(t)
                } else {
                    Ok(pre + seq![','] + t)
                },
                Err(e) => Err(e),
            },
            Err(e) => Err(e),
        }
    }
}

/// The header row: the keys, blank-prefixed and comma-joined, as they are.
pub open spec fn spec_csv_header(keys: Seq<Seq<char>>, spaces: int) -> Seq<char>
    decreases keys.len(),
{
    if keys.len() == 0 {
        Seq::empty()
    } else if keys.len() == 1 {
        indent_text(spaces, 1) + keys.last()
    } else {
        spec_csv_header(keys.drop_last(), spaces) + seq![','] + indent_text(spaces, 1)
            + keys.last()
    }
}

/// One record's row text: for each header key in order, the value the
/// record holds under it, or null where the record lacks it.
pub open spec fn spec_csv_record_text(
    rec: Seq<(Seq<char>, ValueModel)>,
    keys: Seq<Seq<char>>,
    spaces: int,
) -> Result<Seq<char>, MawuError>
    decreases keys.len(),
{
    if keys.len() == 0 {
        Ok(Seq::empty())
    } else {
        let v = match entries_get(rec, keys.last()) {
            Some(v) => v,
            None => ValueModel::Null,
        };
        match spec_csv_record_text(rec, keys.drop_last(), spaces) {
            Ok(pre) => match spec_csv_cell(v, spaces) {
                Ok(t) => if keys.len() == 1 {
                    Ok(t)
                } else {
                    Ok(pre + seq![','] + t)
                },
                Err(e) => Err(e),
            },
            Err(e) => Err(e),
        }
    }
}

/// The newline-joined row texts of a headed table's records.
pub open spec fn spec_csv_records_text(
    records: Seq<Seq<(Seq<char>, ValueModel)>>,
    keys: Seq<Seq<char>>,
    spaces: int,
) -> Result<Seq<char>, MawuError>
    decreases records.len(),
{
    if records.len() == 0 {
        Ok(Seq::empty())
    } else {
        match spec_csv_records_text(records.drop_last(), keys, spaces) {
            Ok(pre) => match spec_csv_record_text(records.last(), keys, spaces) {
                Ok(t) => Ok(pre + seq!['\n'] + t),
                Err(e) => Err(e),
            },
            Err(e) => Err(e),
        }
    }
}

/// The header keys of a headed table: the key list of its first record.
pub open spec fn spec_header_keys(records: Seq<Seq<(Seq<char>, ValueModel)>>) -> Seq<Seq<char>> {
    Seq::new(
        records[0].len(),
        |i: int|
            if 0 <= i < records[0].len() {
                records[0][i].0
            } else {
                Seq::empty()
            },
    )
}

/// What serializing a headed table yields: the header row derived from the
/// first record's keys, then one row per record, the first included; any
/// other variant is refused with its variant named.
pub open spec fn spec_serialize_csv_headed(m: ValueModel, spaces: int) -> Result<
    Seq<char>,
    MawuError,
> {
    match m {
        ValueModel::CSVObject(records) => {
            if records.len() == 0 {
                Ok(seq!['\n'])
            } else {
                let keys = spec_header_keys(records);
                match spec_csv_records_text(records, keys, spaces) {
                    Ok(body) => Ok(spec_csv_header(keys, spaces) + body),
                    Err(e) => Err(e),
                }
            }
        },
        _ => Err(
            MawuError::CsvError(CsvError::WriteError(CsvWriteError::UnallowedType(model_kind(m)))),
        ),
    }
}

/// The row texts of a headless table, each row ended by a newline.
pub open spec fn spec_csv_rows_text(rows: Seq<Seq<ValueModel>>, spaces: int) -> Result<
    Seq<char>,
    MawuError,
>
    decreases rows.len(),
{
    if rows.len() == 0 {
        Ok(Seq::empty())
    } else {
        match spec_csv_rows_text(rows.drop_last(), spaces) {
            Ok(pre) => match spec_csv_cells(rows.last(), spaces) {
                Ok(t) => Ok(pre + t + seq!['\n']),
                Err(e) => Err(e),
            },
            Err(e) => Err(e),
        }
    }
}

/// What serializing a headless table yields: a leading blank run, then one
/// comma-joined line per row; any other variant is refused with its variant
/// named.
pub open spec fn spec_serialize_csv_unheaded(m: ValueModel, spaces: int) -> Result<
    Seq<char>,
    MawuError,
> {
    match m {
        ValueModel::CSVArray(rows) => match spec_csv_rows_text(rows, spaces) {
            Ok(body) => Ok(indent_text(spaces, 1) + body),
            Err(e) => Err(e),
        },
        _ => Err(
            MawuError::CsvError(CsvError::WriteError(CsvWriteError::UnallowedType(model_kind(m)))),
        ),
    }
}

/// An error at one cell decides the whole cell list.
proof fn lemma_cells_err(items: Seq<ValueModel>, spaces: int, m: int)
    requires
        0 <= m <= items.len(),
        spec_csv_cells(items.subrange(0, m), spaces) is Err,
    ensures
        spec_csv_cells(items, spaces) == spec_csv_cells(items.subrange(0, m), spaces),
    decreases items.len() - m,
{
    if m < items.len() {
        let a = items.subrange(0, m);
        let b = items.subrange(0, m + 1);
        assert(b.drop_last() =~= a);
        lemma_cells_err(items, spaces, m + 1);
    } else {
        assert(items.subrange(0, m) =~= items);
    }
}

/// Writes the quoted spelling of a cell text.
fn quote_text(t: &Vec<char>) -> (r: Vec<char>)
    ensures
        r@ == seq!['"'] + double_quotes(t@) + seq!['"'],
{
    let mut out: Vec<char> = Vec::new();
    out.push('"');
    let mut i: usize = 0;
    proof {
        assert(t@.subrange(0, 0) =~= Seq::<char>::empty());
        assert(out@ =~= seq!['"'] + double_quotes(t@.subrange(0, 0)));
    }
    while i < t.len()
        invariant
            i <= t@.len(),
            out@ == seq!['"'] + double_quotes(t@.subrange(0, i as int)),
        decreases t@.len() - i,
    {
        let c = t[i];
        let ghost pre = t@.subrange(0, i as int);
        let ghost cur = t@.subrange(0, i as int + 1);
        proof {
            assert(cur.drop_last() =~= pre);
            assert(cur.last() == t@[i as int]);
        }
        if c == '"' {
            out.push('"');
            out.push('"');
        } else {
            out.push(c);
        }
        i = i + 1;
        proof {
            assert(out@ =~= seq!['"'] + (double_quotes(pre) + (if cur.last() == '"' {
                seq!['"', '"']
            } else {
                seq![cur.last()]
            })));
        }
    }
    out.push('"');
    proof {
        assert(t@.subrange(0, t@.len() as int) =~= t@);
    }
    out
}

/// Serializes one cell as CSV text characters.
fn csv_cell(value: &MawuValue, spaces: u8) -> (r: Result<Vec<char>, MawuError>)
    ensures
        match r {
            Ok(t) => spec_csv_cell(value@, spaces as int) == Ok::<Seq<char>, MawuError>(t@),
            Err(e) => spec_csv_cell(value@, spaces as int) == Err::<Seq<char>, MawuError>(e),
        },
    decreases value, 1int,
{
    let ws = crate::serializers::json_serializer::make_indent(spaces, 1);
    match value {
        MawuValue::Text(s) => {
            let chars = crate::convert::chars_of(s.as_str());
            let quoted = quote_text(&chars);
            let mut out = ws;
            let ghost w0 = out@;
            push_seq(&mut out, quoted);
            proof {
                assert(out@ =~= w0 + seq!['"'] + double_quotes(s@) + seq!['"']);
            }
            Ok(out)
        },
        MawuValue::Uint(v) => {
            let digits = crate::numbers::u64_digits(*v);
            let mut out = ws;
            push_seq(&mut out, digits);
            Ok(out)
        },
        MawuValue::Int(v) => {
            let digits = crate::numbers::i64_text(*v);
            let mut out = ws;
            push_seq(&mut out, digits);
            Ok(out)
        },
        MawuValue::Float(b) => {
            let text = crate::convert::float_display(*b);
            let chars = crate::convert::chars_of(text.as_str());
            let mut out = ws;
            push_seq(&mut out, chars);
            Ok(out)
        },
        MawuValue::Bool(b) => {
            let word = if *b {
                crate::convert::chars_of("true")
            } else {
                crate::convert::chars_of("false")
            };
            let mut out = ws;
            push_seq(&mut out, word);
            Ok(out)
        },
        MawuValue::Null => {
            let out: Vec<char> = Vec::new();
            proof {
                assert(out@ =~= Seq::<char>::empty());
            }
            Ok(out)
        },
        MawuValue::Array(items) => {
            let body = match csv_row_cells(items, spaces) {
                Ok(body) => body,
                Err(e) => {
                    proof {
                        assert(value@ == ValueModel::Array(crate::mawu_value::row_model(*items)));
                    }
                    return Err(e);
                },
            };
            let mut out = ws;
            out.push('[');
            push_seq(&mut out, body);
            out.push(']');
            proof {
                assert(value@ == ValueModel::Array(crate::mawu_value::row_model(*items)));
                assert(out@ =~= indent_text(spaces as int, 1) + seq!['['] + spec_csv_cells(
                    crate::mawu_value::row_model(*items),
                    spaces as int,
                )->Ok_0 + seq![']']);
            }
            Ok(out)
        },
        MawuValue::Object(_) => Err(
            MawuError::CsvError(
                CsvError::WriteError(CsvWriteError::UnallowedType(crate::errors::ValueKind::Object)),
            ),
        ),
        MawuValue::CSVObject(_) => Err(
            MawuError::CsvError(
                CsvError::WriteError(
                    CsvWriteError::UnallowedType(crate::errors::ValueKind::CSVObject),
                ),
            ),
        ),
        MawuValue::CSVArray(_) => Err(
            MawuError::CsvError(
                CsvError::WriteError(
                    CsvWriteError::UnallowedType(crate::errors::ValueKind::CSVArray),
                ),
            ),
        ),
    }
}

/// Serializes a row of cells, comma-joined.
fn csv_row_cells(items: &Vec<MawuValue>, spaces: u8) -> (r: Result<Vec<char>, MawuError>)
    ensures
        match r {
            Ok(t) => spec_csv_cells(crate::mawu_value::row_model(*items), spaces as int) == Ok::<
                Seq<char>,
                MawuError,
            >(t@),
            Err(e) => spec_csv_cells(crate::mawu_value::row_model(*items), spaces as int)
                == Err::<Seq<char>, MawuError>(e),
        },
    decreases items, 0int,
{
    let ghost im = crate::mawu_value::row_model(*items);
    proof {
        crate::model::lemma_row_model_len(*items);
        assert(im.subrange(0, 0) =~= Seq::<ValueModel>::empty());
    }
    let mut body: Vec<char> = Vec::new();
    let mut k: usize = 0;
    while k < items.len()
        invariant
            k <= items@.len(),
            im == crate::mawu_value::row_model(*items),
            im.len() == items@.len(),
            spec_csv_cells(im.subrange(0, k as int), spaces as int) == Ok::<Seq<char>, MawuError>(
                body@,
            ),
        decreases items@.len() - k,
    {
        let ghost pre = im.subrange(0, k as int);
        let ghost cur = im.subrange(0, k as int + 1);
        proof {
            assert(cur.drop_last() =~= pre);
            crate::model::lemma_row_model_index(*items, k as int);
            assert(cur.last() == im[k as int]);
        }
        let t = match csv_cell(&items[k], spaces) {
            Ok(t) => t,
            Err(e) => {
                proof {
                    lemma_cells_err(im, spaces as int, k as int + 1);
                }
                return Err(e);
            },
        };
        let ghost body0 = body@;
        if k > 0 {
            body.push(',');
        }
        push_seq(&mut body, t);
        k = k + 1;
        proof {
            if k == 1 {
                assert(body@ =~= spec_csv_cell(cur.last(), spaces as int)->Ok_0);
            } else {
                assert(body@ =~= body0 + seq![','] + spec_csv_cell(
                    cur.last(),
                    spaces as int,
                )->Ok_0);
            }
        }
    }
    proof {
        assert(im.subrange(0, im.len() as int) =~= im);
    }
    Ok(body)
}

/// Serializes a headless table: one comma-joined line per row, each line
/// ended by a newline.
pub fn serialize_csv_unheaded(value: MawuValue, spaces: u8) -> (r: Result<String, MawuError>)
    ensures
        match r {
            Ok(s) => spec_serialize_csv_unheaded(value@, spaces as int) == Ok::<
                Seq<char>,
                MawuError,
            >(s@),
            Err(e) => spec_serialize_csv_unheaded(value@, spaces as int) == Err::<
                Seq<char>,
                MawuError,
            >(e),
        },
{
    let rows = match &value {
        MawuValue::CSVArray(rows) => rows,
        _ => {
            let kind = value.kind();
            return Err(
                MawuError::CsvError(CsvError::WriteError(CsvWriteError::UnallowedType(kind))),
            );
        },
    };
    let ghost rm = crate::mawu_value::rows_model(*rows);
    proof {
        crate::model::lemma_rows_model_len(*rows);
        assert(value@ == ValueModel::CSVArray(rm));
        assert(rm.subrange(0, 0) =~= Seq::<Seq<ValueModel>>::empty());
    }
    let mut body: Vec<char> = crate::serializers::json_serializer::make_indent(spaces, 1);
    let ghost ws = body@;
    let mut k: usize = 0;
    while k < rows.len()
        invariant
            k <= rows@.len(),
            rm == crate::mawu_value::rows_model(*rows),
            rm.len() == rows@.len(),
            ws == indent_text(spaces as int, 1),
            value@ == ValueModel::CSVArray(rm),
            spec_csv_rows_text(rm.subrange(0, k as int), spaces as int) is Ok,
            body@ == ws + spec_csv_rows_text(rm.subrange(0, k as int), spaces as int)->Ok_0,
        decreases rows@.len() - k,
    {
        let ghost pre = rm.subrange(0, k as int);
        let ghost cur = rm.subrange(0, k as int + 1);
        proof {
            assert(cur.drop_last() =~= pre);
            crate::model::lemma_rows_model_index(*rows, k as int);
            assert(cur.last() == rm[k as int]);
        }
        let t = match csv_row_cells(&rows[k], spaces) {
            Ok(t) => t,
            Err(e) => {
                proof {
                    lemma_rows_text_err(rm, spaces as int, k as int + 1);
                }
                return Err(e);
            },
        };
        let ghost body0 = body@;
        push_seq(&mut body, t);
        body.push('\n');
        k = k + 1;
        proof {
            assert(body@ =~= ws + (spec_csv_rows_text(pre, spaces as int)->Ok_0 + spec_csv_cells(
                cur.last(),
                spaces as int,
            )->Ok_0 + seq!['\n']));
        }
    }
    proof {
        assert(rm.subrange(0, rm.len() as int) =~= rm);
    }
    Ok(string_from_chars(&body))
}

/// An error at one row decides the whole row list.
proof fn lemma_rows_text_err(rows: Seq<Seq<ValueModel>>, spaces: int, m: int)
    requires
        0 <= m <= rows.len(),
        spec_csv_rows_text(rows.subrange(0, m), spaces) is Err,
    ensures
        spec_csv_rows_text(rows, spaces) == spec_csv_rows_text(rows.subrange(0, m), spaces),
    decreases rows.len() - m,
{
    if m < rows.len() {
        let a = rows.subrange(0, m);
        let b = rows.subrange(0, m + 1);
        assert(b.drop_last() =~= a);
        lemma_rows_text_err(rows, spaces, m + 1);
    } else {
        assert(rows.subrange(0, m) =~= rows);
    }
}

/// An error at one record decides the whole record list.
proof fn lemma_records_text_err(
    records: Seq<Seq<(Seq<char>, ValueModel)>>,
    keys: Seq<Seq<char>>,
    spaces: int,
    m: int,
)
    requires
        0 <= m <= records.len(),
        spec_csv_records_text(records.subrange(0, m), keys, spaces) is Err,
    ensures
        spec_csv_records_text(records, keys, spaces) == spec_csv_records_text(
            records.subrange(0, m),
            keys,
            spaces,
        ),
    decreases records.len() - m,
{
    if m < records.len() {
        let a = records.subrange(0, m);
        let b = records.subrange(0, m + 1);
        assert(b.drop_last() =~= a);
        lemma_records_text_err(records, keys, spaces, m + 1);
    } else {
        assert(records.subrange(0, m) =~= records);
    }
}

/// Serializes one record of a headed table against the header keys.
fn csv_record_text(rec: &Vec<(String, MawuValue)>, keys: &Vec<String>, spaces: u8) -> (r: Result<
    Vec<char>,
    MawuError,
>)
    ensures
        ({
            let recm = crate::mawu_value::entries_model(*rec);
            let km = crate::lexers::csv_lexer::keys_model(*keys);
            match r {
                Ok(t) => spec_csv_record_text(recm, km, spaces as int) == Ok::<
                    Seq<char>,
                    MawuError,
                >(t@),
                Err(e) => spec_csv_record_text(recm, km, spaces as int) == Err::<
                    Seq<char>,
                    MawuError,
                >(e),
            }
        }),
{
    let ghost recm = crate::mawu_value::entries_model(*rec);
    let ghost km = crate::lexers::csv_lexer::keys_model(*keys);
    proof {
        assert(km.subrange(0, 0) =~= Seq::<Seq<char>>::empty());
    }
    let mut body: Vec<char> = Vec::new();
    let mut k: usize = 0;
    while k < keys.len()
        invariant
            k <= keys@.len(),
            recm == crate::mawu_value::entries_model(*rec),
            km == crate::lexers::csv_lexer::keys_model(*keys),
            km.len() == keys@.len(),
            spec_csv_record_text(recm, km.subrange(0, k as int), spaces as int) == Ok::<
                Seq<char>,
                MawuError,
            >(body@),
        decreases keys@.len() - k,
    {
        let ghost pre = km.subrange(0, k as int);
        let ghost cur = km.subrange(0, k as int + 1);
        proof {
            assert(cur.drop_last() =~= pre);
            assert(cur.last() == km[k as int]);
            assert(km[k as int] == keys@[k as int]@);
        }
        let null_value = MawuValue::Null;
        let looked = crate::lexers::json_lexer::find_entry(rec, keys[k].as_str());
        let cell_ref: &MawuValue = match looked {
            Some(i) => &rec[i].1,
            None => &null_value,
        };
        proof {
            crate::mawu_value::lemma_entries_find(recm, km[k as int]);
            match looked {
                Some(i) => {
                    crate::model::lemma_entries_model_index(*rec, i as int);
                    assert(entries_get(recm, km[k as int]) == Some(cell_ref@));
                },
                None => {
                    assert(entries_get(recm, km[k as int]) is None);
                    assert(cell_ref@ == ValueModel::Null);
                },
            }
        }
        let t = match csv_cell(cell_ref, spaces) {
            Ok(t) => t,
            Err(e) => {
                proof {
                    lemma_record_text_err(recm, km, spaces as int, k as int + 1);
                }
                return Err(e);
            },
        };
        let ghost body0 = body@;
        if k > 0 {
            body.push(',');
        }
        push_seq(&mut body, t);
        k = k + 1;
        proof {
            let v = match entries_get(recm, cur.last()) {
                Some(v) => v,
                None => ValueModel::Null,
            };
            if k == 1 {
                assert(body@ =~= spec_csv_cell(v, spaces as int)->Ok_0);
            } else {
                assert(body@ =~= body0 + seq![','] + spec_csv_cell(v, spaces as int)->Ok_0);
            }
        }
    }
    proof {
        assert(km.subrange(0, km.len() as int) =~= km);
    }
    Ok(body)
}

/// An error at one key's cell decides the whole record row.
proof fn lemma_record_text_err(
    rec: Seq<(Seq<char>, ValueModel)>,
    keys: Seq<Seq<char>>,
    spaces: int,
    m: int,
)
    requires
        0 <= m <= keys.len(),
        spec_csv_record_text(rec, keys.subrange(0, m), spaces) is Err,
    ensures
        spec_csv_record_text(rec, keys, spaces) == spec_csv_record_text(
            rec,
            keys.subrange(0, m),
            spaces,
        ),
    decreases keys.len() - m,
{
    if m < keys.len() {
        let a = keys.subrange(0, m);
        let b = keys.subrange(0, m + 1);
        assert(b.drop_last() =~= a);
        lemma_record_text_err(rec, keys, spaces, m + 1);
    } else {
        assert(keys.subrange(0, m) =~= keys);
    }
}

/// Serializes a headed table: the header row from the first record's keys,
/// then one row per record.
pub fn serialize_csv_headed(value: MawuValue, spaces: u8) -> (r: Result<String, MawuError>)
    ensures
        match r {
            Ok(s) => spec_serialize_csv_headed(value@, spaces as int) == Ok::<
                Seq<char>,
                MawuError,
            >(s@),
            Err(e) => spec_serialize_csv_headed(value@, spaces as int) == Err::<
                Seq<char>,
                MawuError,
            >(e),
        },
{
    let records = match &value {
        MawuValue::CSVObject(records) => records,
        _ => {
            let kind = value.kind();
            return Err(
                MawuError::CsvError(CsvError::WriteError(CsvWriteError::UnallowedType(kind))),
            );
        },
    };
    let ghost rm = crate::mawu_value::entry_rows_model(*records);
    proof {
        crate::model::lemma_entry_rows_model_len(*records);
        assert(value@ == ValueModel::CSVObject(rm));
    }
    if records.len() == 0 {
        let mut out: Vec<char> = Vec::new();
        out.push('\n');
        proof {
            assert(out@ =~= seq!['\n']);
        }
        return Ok(string_from_chars(&out));
    }
    let first = &records[0];
    let mut keys: Vec<String> = Vec::new();
    let mut i: usize = 0;
    proof {
        assert(rm[0] == crate::mawu_value::entries_model(records@[0]));
    }
    while i < first.len()
        invariant
            i <= first@.len(),
            first == &records@[0],
            rm == crate::mawu_value::entry_rows_model(*records),
            records@.len() > 0,
            rm[0] == crate::mawu_value::entries_model(records@[0]),
            keys@.len() == i,
            rm[0].len() == first@.len(),
            forall|j: int| 0 <= j < i ==> (#[trigger] keys@[j])@ == rm[0][j].0,
        decreases first@.len() - i,
    {
        proof {
            crate::model::lemma_entries_model_index(records@[0], i as int);
        }
        let key = first[i].0.clone();
        keys.push(key);
        i = i + 1;
    }
    let ghost km = crate::lexers::csv_lexer::keys_model(keys);
    proof {
        assert(km =~= spec_header_keys(rm));
    }
    let mut header: Vec<char> = Vec::new();
    let mut k: usize = 0;
    proof {
        assert(km.subrange(0, 0) =~= Seq::<Seq<char>>::empty());
        assert(header@ =~= spec_csv_header(km.subrange(0, 0), spaces as int));
    }
    while k < keys.len()
        invariant
            k <= keys@.len(),
            km == crate::lexers::csv_lexer::keys_model(keys),
            km.len() == keys@.len(),
            header@ == spec_csv_header(km.subrange(0, k as int), spaces as int),
        decreases keys@.len() - k,
    {
        let ghost pre = km.subrange(0, k as int);
        let ghost cur = km.subrange(0, k as int + 1);
        proof {
            assert(cur.drop_last() =~= pre);
            assert(cur.last() == km[k as int]);
            assert(km[k as int] == keys@[k as int]@);
        }
        let ghost header0 = header@;
        if k > 0 {
            header.push(',');
        }
        let ws = crate::serializers::json_serializer::make_indent(spaces, 1);
        push_seq(&mut header, ws);
        let kc = crate::convert::chars_of(keys[k].as_str());
        push_seq(&mut header, kc);
        k = k + 1;
        proof {
            if k == 1 {
                assert(header@ =~= indent_text(spaces as int, 1) + cur.last());
            } else {
                assert(header@ =~= header0 + seq![','] + indent_text(spaces as int, 1)
                    + cur.last());
            }
        }
    }
    let mut body: Vec<char> = Vec::new();
    let mut n: usize = 0;
    proof {
        assert(rm.subrange(0, 0) =~= Seq::<Seq<(Seq<char>, ValueModel)>>::empty());
    }
    while n < records.len()
        invariant
            n <= records@.len(),
            rm == crate::mawu_value::entry_rows_model(*records),
            rm.len() == records@.len(),
            km == crate::lexers::csv_lexer::keys_model(keys),
            value@ == ValueModel::CSVObject(rm),
            records@.len() > 0,
            km == spec_header_keys(rm),
            spec_csv_records_text(rm.subrange(0, n as int), km, spaces as int) is Ok,
            body@ == spec_csv_records_text(rm.subrange(0, n as int), km, spaces as int)->Ok_0,
        decreases records@.len() - n,
    {
        let ghost pre = rm.subrange(0, n as int);
        let ghost cur = rm.subrange(0, n as int + 1);
        proof {
            assert(cur.drop_last() =~= pre);
            crate::model::lemma_entry_rows_model_index(*records, n as int);
            assert(cur.last() == rm[n as int]);
        }
        let t = match csv_record_text(&records[n], &keys, spaces) {
            Ok(t) => t,
            Err(e) => {
                proof {
                    lemma_records_text_err(rm, km, spaces as int, n as int + 1);
                }
                return Err(e);
            },
        };
        let ghost body0 = body@;
        body.push('\n');
        push_seq(&mut body, t);
        n = n + 1;
        proof {
            assert(body@ =~= body0 + seq!['\n'] + spec_csv_record_text(
                cur.last(),
                km,
                spaces as int,
            )->Ok_0);
        }
    }
    proof {
        assert(rm.subrange(0, rm.len() as int) =~= rm);
        assert(km.subrange(0, km.len() as int) =~= km);
        assert(value@ == ValueModel::CSVObject(rm));
    }
    let mut out = header;
    push_seq(&mut out, body);
    proof {
        assert(out@ =~= spec_csv_header(km, spaces as int) + spec_csv_records_text(
            rm,
            km,
            spaces as int,
        )->Ok_0);
    }
    Ok(string_from_chars(&out))
}

} // verus!
