//! The CSV parser: an ordered character sequence plus a headed/headless mode
//! flag become a table value.
//!
//! The first record anchors the column count used for missing-value padding
//! in both modes; in headed mode it additionally becomes the set of record
//! keys. Every executable function mirrors a specification function on the
//! character sequence exactly.

use vstd::prelude::*;

use crate::errors::CsvError;
use crate::errors::CsvParseError;
use crate::errors::MawuError;
use crate::lexers::json_lexer::put_entry;
use crate::mawu_value::entries_model;
use crate::mawu_value::entries_put;
use crate::mawu_value::scalar_model_of_text;
use crate::mawu_value::MawuValue;
use crate::mawu_value::ValueModel;
use crate::utils::is_newline_char;

verus! {

/// One scanned field: its text, whether it was quoted, and the position of
/// its terminator; or the error that ended the parse.
pub enum FieldStep {
    Done(Seq<char>, bool, int),
    Fail(CsvParseError),
}

/// One scanned quoted body: its text and the position after the closing
/// quote; or the error that ended the parse.
pub enum QuotedStep {
    Done(Seq<char>, int),
    Fail(CsvParseError),
}

/// One scanned record: its fields, each with its quoted flag, and the
/// position after the record separator; or the error that ended the parse.
pub enum RecordStep {
    Done(Seq<(Seq<char>, bool)>, int),
    Fail(CsvParseError),
}

/// All scanned records, or the error that ended the parse.
pub enum RowsStep {
    Done(Seq<Seq<(Seq<char>, bool)>>),
    Fail(CsvParseError),
}

/// Whether the character is a space or a tab: blank inside a record line.
pub open spec fn is_st_char(c: char) -> bool {
    c == ' ' || c == '\t'
}

/// The first position at or after `i` holding no space or tab.
pub open spec fn spec_skip_st(s: Seq<char>, i: int) -> int
    decreases s.len() - i,
{
    if 0 <= i < s.len() && is_st_char(s[i]) {
        spec_skip_st(s, i + 1)
    } else {
        i
    }
}

/// The form of [`spec_skip_st`] that never moves backwards.
pub open spec fn spec_st(s: Seq<char>, i: int) -> int {
    let j = spec_skip_st(s, i);
    if j >= i {
        j
    } else {
        i
    }
}

/// The continuation position after a sub-parse, moved forward and clamped
/// to the text, as the recursion measure needs.
pub open spec fn csv_adv(s: Seq<char>, i: int, n: int) -> int {
    let lo = if n > i {
        n
    } else {
        i + 1
    };
    if lo > s.len() {
        s.len() as int
    } else {
        lo
    }
}

/// The text without its trailing spaces and tabs.
pub open spec fn trim_st(t: Seq<char>) -> Seq<char>
    decreases t.len(),
{
    if t.len() > 0 && is_st_char(t.last()) {
        trim_st(t.drop_last())
    } else {
        t
    }
}

/// What scanning a quoted field body from `i` (just after the opening
/// quote) yields: text up to the closing quote, a doubled quote standing
/// for one literal quote; input ending inside the quotes is fatal.
pub open spec fn spec_csv_quoted(s: Seq<char>, i: int) -> QuotedStep
    decreases s.len() - i,
{
    if i < 0 || i >= s.len() {
        QuotedStep::Fail(CsvParseError::UnterminatedQuote)
    } else if s[i] == '"' {
        if i + 1 < s.len() && s[i + 1] == '"' {
            match spec_csv_quoted(s, i + 2) {
                QuotedStep::Done(text, next) => QuotedStep::Done(seq!['"'] + text, next),
                QuotedStep::Fail(e) => QuotedStep::Fail(e),
            }
        } else {
            QuotedStep::Done(Seq::empty(), i + 1)
        }
    } else {
        match spec_csv_quoted(s, i + 1) {
            QuotedStep::Done(text, next) => QuotedStep::Done(seq![s[i]] + text, next),
            QuotedStep::Fail(e) => QuotedStep::Fail(e),
        }
    }
}

/// What scanning an unquoted field body from `i` yields: text up to a
/// comma, record separator or the end of input; a bare quote inside it is
/// fatal.
pub open spec fn spec_csv_raw(s: Seq<char>, i: int) -> QuotedStep
    decreases s.len() - i,
{
    if i < 0 || i >= s.len() || s[i] == ',' || is_newline_char(s[i]) {
        QuotedStep::Done(Seq::empty(), i)
    } else if s[i] == '"' {
        QuotedStep::Fail(CsvParseError::UnescapedDoubleQuote)
    } else {
        match spec_csv_raw(s, i + 1) {
            QuotedStep::Done(text, next) => QuotedStep::Done(seq![s[i]] + text, next),
            QuotedStep::Fail(e) => QuotedStep::Fail(e),
        }
    }
}

/// What scanning one field from `i` yields: blanks are skipped, an omitted
/// field is empty unquoted text, a quoted field must be followed (after
/// blanks) by a terminator, and an unquoted field loses its trailing
/// blanks.
pub open spec fn spec_csv_field(s: Seq<char>, i: int) -> FieldStep {
    let j = spec_st(s, i);
    if j >= s.len() || s[j] == ',' || is_newline_char(s[j]) {
        FieldStep::Done(Seq::empty(), false, j)
    } else if s[j] == '"' {
        match spec_csv_quoted(s, j + 1) {
            QuotedStep::Done(text, k) => {
                let m = spec_st(s, k);
                if m >= s.len() || s[m] == ',' || is_newline_char(s[m]) {
                    FieldStep::Done(text, true, m)
                } else {
                    FieldStep::Fail(CsvParseError::UnescapedCharacter(s[m]))
                }
            },
            QuotedStep::Fail(e) => FieldStep::Fail(e),
        }
    } else {
        match spec_csv_raw(s, j) {
            QuotedStep::Done(text, n) => FieldStep::Done(trim_st(text), false, n),
            QuotedStep::Fail(e) => FieldStep::Fail(e),
        }
    }
}

/// What scanning one record from `i` yields: comma-separated fields up to
/// a record separator, which the record consumes, or the end of input.
pub open spec fn spec_csv_record(s: Seq<char>, i: int) -> RecordStep
    decreases s.len() - i,
{
    match spec_csv_field(s, i) {
        FieldStep::Done(text, quoted, n) => {
            if n >= s.len() {
                RecordStep::Done(seq![(text, quoted)], s.len() as int)
            } else if s[n] == ',' {
                match spec_csv_record(s, csv_adv(s, i, n + 1)) {
                    RecordStep::Done(cells, next) => RecordStep::Done(
                        seq![(text, quoted)] + cells,
                        next,
                    ),
                    RecordStep::Fail(e) => RecordStep::Fail(e),
                }
            } else if s[n] == '\r' && n + 1 < s.len() && s[n + 1] == '\n' {
                RecordStep::Done(seq![(text, quoted)], n + 2)
            } else if is_newline_char(s[n]) {
                RecordStep::Done(seq![(text, quoted)], n + 1)
            } else {
                RecordStep::Fail(CsvParseError::UnexpectedNewline)
            }
        },
        FieldStep::Fail(e) => RecordStep::Fail(e),
    }
}

/// What scanning all records yields, one record per line until the input
/// ends.
pub open spec fn spec_csv_rows(s: Seq<char>, i: int) -> RowsStep
    decreases s.len() - i,
{
    if i >= s.len() {
        RowsStep::Done(Seq::empty())
    } else {
        match spec_csv_record(s, i) {
            RecordStep::Done(cells, next) => match spec_csv_rows(s, csv_adv(s, i, next)) {
                RowsStep::Done(rest) => RowsStep::Done(seq![cells] + rest),
                RowsStep::Fail(e) => RowsStep::Fail(e),
            },
            RecordStep::Fail(e) => RowsStep::Fail(e),
        }
    }
}

/// The scalar a cell denotes: quoted empty text is empty text, distinct
/// from the null that only field omission produces; everything else goes
/// through the numeric literal selection policy.
pub open spec fn cell_model(text: Seq<char>, quoted: bool) -> ValueModel {
    if quoted && text.len() == 0 {
        ValueModel::Text(Seq::empty())
    } else {
        scalar_model_of_text(text)
    }
}

/// The scalars a record's cells denote, in order.
pub open spec fn convert_cells(cells: Seq<(Seq<char>, bool)>) -> Seq<ValueModel> {
    Seq::new(
        cells.len(),
        |i: int|
            if 0 <= i < cells.len() {
                cell_model(cells[i].0, cells[i].1)
            } else {
                ValueModel::Null
            },
    )
}

/// The row padded on the right with nulls up to the anchor width; a row
/// already that wide or wider stays as it is.
pub open spec fn pad_row(vals: Seq<ValueModel>, w: int) -> Seq<ValueModel> {
    if vals.len() >= w {
        vals
    } else {
        vals + Seq::new((w - vals.len()) as nat, |i: int| ValueModel::Null)
    }
}

/// The value rows of a headless table after the anchor row: converted and
/// padded to the anchor width.
pub open spec fn padded_rows(rows: Seq<Seq<(Seq<char>, bool)>>, w: int) -> Seq<Seq<ValueModel>> {
    Seq::new(
        rows.len(),
        |i: int|
            if 0 <= i < rows.len() {
                pad_row(convert_cells(rows[i]), w)
            } else {
                Seq::empty()
            },
    )
}

/// What the headless CSV parse of a text yields: the first row anchors the
/// width and is never padded; every later row is padded to that width; an
/// empty input cannot anchor and is rejected.
pub open spec fn spec_csv_headless(s: Seq<char>) -> Result<ValueModel, MawuError> {
    match spec_csv_rows(s, 0) {
        RowsStep::Done(rows) => {
            if rows.len() == 0 {
                Err(MawuError::CsvError(CsvError::ParseError(CsvParseError::UnrecognizedHeader)))
            } else {
                Ok(
                    ValueModel::CSVArray(
                        seq![convert_cells(rows[0])] + padded_rows(
                            rows.drop_first(),
                            rows[0].len() as int,
                        ),
                    ),
                )
            }
        },
        RowsStep::Fail(e) => Err(MawuError::CsvError(CsvError::ParseError(e))),
    }
}

/// The entries of one record of a headed table: the header keys written in
/// order against the row's values, a duplicate key keeping the later
/// value.
pub open spec fn build_entries(
    keys: Seq<Seq<char>>,
    vals: Seq<ValueModel>,
    k: int,
    acc: Seq<(Seq<char>, ValueModel)>,
) -> Seq<(Seq<char>, ValueModel)>
    decreases keys.len() - k,
{
    if k < 0 || k >= keys.len() || k >= vals.len() {
        acc
    } else {
        build_entries(keys, vals, k + 1, entries_put(acc, keys[k], vals[k]))
    }
}

/// The records of a headed table: each data row padded to the header
/// width, a wider row fatal, carrying the count of its fields.
pub open spec fn spec_headed_records(
    rows: Seq<Seq<(Seq<char>, bool)>>,
    keys: Seq<Seq<char>>,
    idx: int,
) -> Result<Seq<Seq<(Seq<char>, ValueModel)>>, CsvParseError>
    decreases rows.len() - idx,
{
    if idx < 0 || idx >= rows.len() {
        Ok(Seq::empty())
    } else if rows[idx].len() > keys.len() {
        Err(CsvParseError::ExtraValue(rows[idx].len() as usize))
    } else {
        match spec_headed_records(rows, keys, idx + 1) {
            Ok(rest) => Ok(
                seq![
                    build_entries(
                        keys,
                        pad_row(convert_cells(rows[idx]), keys.len() as int),
                        0,
                        Seq::empty(),
                    ),
                ] + rest,
            ),
            Err(e) => Err(e),
        }
    }
}

/// What the headed CSV parse of a text yields: the first record supplies
/// the keys, every later record becomes a mapping padded to the header
/// width, and a record wider than the header is fatal.
pub open spec fn spec_csv_headed(s: Seq<char>) -> Result<ValueModel, MawuError> {
    match spec_csv_rows(s, 0) {
        RowsStep::Done(rows) => {
            if rows.len() == 0 {
                Err(MawuError::CsvError(CsvError::ParseError(CsvParseError::UnrecognizedHeader)))
            } else {
                let keys = Seq::new(
                    rows[0].len(),
                    |i: int|
                        if 0 <= i < rows[0].len() {
                            rows[0][i].0
                        } else {
                            Seq::empty()
                        },
                );
                match spec_headed_records(rows, keys, 1) {
                    Ok(records) => Ok(ValueModel::CSVObject(records)),
                    Err(e) => Err(MawuError::CsvError(CsvError::ParseError(e))),
                }
            }
        },
        RowsStep::Fail(e) => Err(MawuError::CsvError(CsvError::ParseError(e))),
    }
}

/// The model of one scanned cell list.
pub open spec fn cells_model(v: Vec<(String, bool)>) -> Seq<(Seq<char>, bool)> {
    Seq::new(
        v@.len(),
        |i: int|
            if 0 <= i < v@.len() {
                (v@[i].0@, v@[i].1)
            } else {
                (Seq::<char>::empty(), false)
            },
    )
}

/// The model of a scanned record list.
pub open spec fn cellrows_model(v: Vec<Vec<(String, bool)>>) -> Seq<Seq<(Seq<char>, bool)>> {
    Seq::new(
        v@.len(),
        |i: int|
            if 0 <= i < v@.len() {
                cells_model(v@[i])
            } else {
                Seq::empty()
            },
    )
}

/// Whether the character is a space or a tab, as executable code.
fn st_char(c: char) -> (r: bool)
    ensures
        r == is_st_char(c),
{
    c == ' ' || c == '\t'
}

/// Whether the character opens a record separator, as executable code.
fn nl_char(c: char) -> (r: bool)
    ensures
        r == is_newline_char(c),
{
    c == '\n' || c == '\r'
}

/// Moves the cursor past spaces and tabs.
fn skip_st(s: &Vec<char>, pos: usize) -> (r: usize)
    requires
        pos <= s@.len(),
    ensures
        r as int == spec_st(s@, pos as int),
        pos <= r <= s@.len(),
        r < s@.len() ==> !is_st_char(s@[r as int]),
{
    let mut i: usize = pos;
    while i < s.len() && st_char(s[i])
        invariant
            pos <= i <= s@.len(),
            spec_skip_st(s@, pos as int) == spec_skip_st(s@, i as int),
        decreases s@.len() - i,
    {
        i = i + 1;
    }
    i
}

/// Taking one accumulated step keeps the loop equation of a quoted or
/// unquoted field scan.
proof fn lemma_step_quoted(
    which_raw: bool,
    s: Seq<char>,
    pos: int,
    iold: int,
    inew: int,
    acc0: Seq<char>,
    piece: Seq<char>,
)
    requires
        spec_scan(which_raw, s, iold) is Done ==> spec_scan(which_raw, s, pos)
            == QuotedStep::Done(
            acc0 + spec_scan(which_raw, s, iold)->Done_0,
            spec_scan(which_raw, s, iold)->Done_1,
        ),
        spec_scan(which_raw, s, iold) is Fail ==> spec_scan(which_raw, s, pos) == spec_scan(
            which_raw,
            s,
            iold,
        ),
        spec_scan(which_raw, s, inew) is Done ==> spec_scan(which_raw, s, iold)
            == QuotedStep::Done(
            piece + spec_scan(which_raw, s, inew)->Done_0,
            spec_scan(which_raw, s, inew)->Done_1,
        ),
        spec_scan(which_raw, s, inew) is Fail ==> spec_scan(which_raw, s, iold) == spec_scan(
            which_raw,
            s,
            inew,
        ),
    ensures
        spec_scan(which_raw, s, inew) is Done ==> spec_scan(which_raw, s, pos)
            == QuotedStep::Done(
            (acc0 + piece) + spec_scan(which_raw, s, inew)->Done_0,
            spec_scan(which_raw, s, inew)->Done_1,
        ),
        spec_scan(which_raw, s, inew) is Fail ==> spec_scan(which_raw, s, pos) == spec_scan(
            which_raw,
            s,
            inew,
        ),
{
    if spec_scan(which_raw, s, inew) is Done {
        assert(acc0 + (piece + spec_scan(which_raw, s, inew)->Done_0) =~= (acc0 + piece)
            + spec_scan(which_raw, s, inew)->Done_0);
    }
}

/// The quoted and unquoted scans under one name, for the shared step
/// lemma.
pub open spec fn spec_scan(raw: bool, s: Seq<char>, i: int) -> QuotedStep {
    if raw {
        spec_csv_raw(s, i)
    } else {
        spec_csv_quoted(s, i)
    }
}

/// Scans a quoted field body, the cursor standing just after the opening
/// quote.
fn csv_quoted(s: &Vec<char>, pos: usize) -> (r: Result<(Vec<char>, usize), CsvParseError>)
    requires
        pos <= s@.len(),
    ensures
        match r {
            Ok(p) => spec_csv_quoted(s@, pos as int) == QuotedStep::Done(p.0@, p.1 as int) && pos
                < p.1 <= s@.len(),
            Err(e) => spec_csv_quoted(s@, pos as int) == QuotedStep::Fail(e),
        },
{
    let mut acc: Vec<char> = Vec::new();
    let mut i: usize = pos;
    loop
        invariant
            pos <= i <= s@.len(),
            spec_csv_quoted(s@, i as int) is Done ==> spec_csv_quoted(s@, pos as int)
                == QuotedStep::Done(
                acc@ + spec_csv_quoted(s@, i as int)->Done_0,
                spec_csv_quoted(s@, i as int)->Done_1,
            ),
            spec_csv_quoted(s@, i as int) is Fail ==> spec_csv_quoted(s@, pos as int)
                == spec_csv_quoted(s@, i as int),
        decreases s@.len() - i,
    {
        let ghost iold = i as int;
        let ghost acc0 = acc@;
        if i == s.len() {
            return Err(CsvParseError::UnterminatedQuote);
        }
        let c = s[i];
        if c == '"' {
            if i + 1 < s.len() && s[i + 1] == '"' {
                acc.push('"');
                i = i + 2;
                proof {
                    lemma_step_quoted(false, s@, pos as int, iold, i as int, acc0, seq!['"']);
                    assert(acc@ =~= acc0 + seq!['"']);
                }
                continue ;
            }
            proof {
                assert(acc@ + Seq::<char>::empty() =~= acc@);
            }
            return Ok((acc, i + 1));
        }
        acc.push(c);
        i = i + 1;
        proof {
            lemma_step_quoted(false, s@, pos as int, iold, i as int, acc0, seq![c]);
            assert(acc@ =~= acc0 + seq![c]);
        }
    }
}

/// Scans an unquoted field body.
fn csv_raw(s: &Vec<char>, pos: usize) -> (r: Result<(Vec<char>, usize), CsvParseError>)
    requires
        pos <= s@.len(),
    ensures
        match r {
            Ok(p) => spec_csv_raw(s@, pos as int) == QuotedStep::Done(p.0@, p.1 as int) && pos
                <= p.1 <= s@.len() && (p.1 < s@.len() ==> (s@[p.1 as int] == ','
                || is_newline_char(s@[p.1 as int]))),
            Err(e) => spec_csv_raw(s@, pos as int) == QuotedStep::Fail(e),
        },
{
    let mut acc: Vec<char> = Vec::new();
    let mut i: usize = pos;
    loop
        invariant
            pos <= i <= s@.len(),
            spec_csv_raw(s@, i as int) is Done ==> spec_csv_raw(s@, pos as int)
                == QuotedStep::Done(
                acc@ + spec_csv_raw(s@, i as int)->Done_0,
                spec_csv_raw(s@, i as int)->Done_1,
            ),
            spec_csv_raw(s@, i as int) is Fail ==> spec_csv_raw(s@, pos as int) == spec_csv_raw(
                s@,
                i as int,
            ),
        decreases s@.len() - i,
    {
        let ghost iold = i as int;
        let ghost acc0 = acc@;
        if i == s.len() {
            proof {
                assert(acc@ + Seq::<char>::empty() =~= acc@);
            }
            return Ok((acc, i));
        }
        let c = s[i];
        if c == ',' || nl_char(c) {
            proof {
                assert(acc@ + Seq::<char>::empty() =~= acc@);
            }
            return Ok((acc, i));
        }
        if c == '"' {
            return Err(CsvParseError::UnescapedDoubleQuote);
        }
        acc.push(c);
        i = i + 1;
        proof {
            lemma_step_quoted(true, s@, pos as int, iold, i as int, acc0, seq![c]);
            assert(acc@ =~= acc0 + seq![c]);
        }
    }
}

/// Drops trailing spaces and tabs from a scanned field body.
fn trim_text(text: Vec<char>) -> (r: Vec<char>)
    ensures
        r@ == trim_st(text@),
{
    let mut t = text;
    loop
        invariant
            trim_st(t@) == trim_st(text@),
        decreases t@.len(),
    {
        if t.len() == 0 {
            return t;
        }
        let last = t[t.len() - 1];
        if !st_char(last) {
            return t;
        }
        let ghost t0 = t@;
        t.pop();
        proof {
            assert(t@ =~= t0.drop_last());
        }
    }
}

/// Scans one field: blanks skipped, quoted or unquoted body, trailing
/// blanks of an unquoted body dropped.
fn csv_field(s: &Vec<char>, pos: usize) -> (r: Result<(Vec<char>, bool, usize), CsvParseError>)
    requires
        pos <= s@.len(),
    ensures
        match r {
            Ok(p) => spec_csv_field(s@, pos as int) == FieldStep::Done(p.0@, p.1, p.2 as int)
                && pos <= p.2 <= s@.len() && (p.2 < s@.len() ==> (s@[p.2 as int] == ','
                || is_newline_char(s@[p.2 as int]))),
            Err(e) => spec_csv_field(s@, pos as int) == FieldStep::Fail(e),
        },
{
    let j = skip_st(s, pos);
    if j == s.len() {
        let empty: Vec<char> = Vec::new();
        proof {
            assert(empty@ =~= Seq::<char>::empty());
        }
        return Ok((empty, false, j));
    }
    let c = s[j];
    if c == ',' || nl_char(c) {
        let empty: Vec<char> = Vec::new();
        proof {
            assert(empty@ =~= Seq::<char>::empty());
        }
        return Ok((empty, false, j));
    }
    if c == '"' {
        let (text, k) = match csv_quoted(s, j + 1) {
            Ok(p) => p,
            Err(e) => {
                return Err(e);
            },
        };
        let m = skip_st(s, k);
        if m == s.len() {
            return Ok((text, true, m));
        }
        let t = s[m];
        if t == ',' || nl_char(t) {
            return Ok((text, true, m));
        }
        return Err(CsvParseError::UnescapedCharacter(t));
    }
    match csv_raw(s, j) {
        Ok((text, n)) => {
            let out = trim_text(text);
            Ok((out, false, n))
        },
        Err(e) => Err(e),
    }
}

/// Scans one record: comma-separated fields up to a record separator,
/// which the record consumes, or the end of input.
fn csv_record(s: &Vec<char>, pos: usize) -> (r: Result<
    (Vec<(String, bool)>, usize),
    CsvParseError,
>)
    requires
        pos <= s@.len(),
    ensures
        match r {
            Ok(p) => spec_csv_record(s@, pos as int) == RecordStep::Done(
                cells_model(p.0),
                p.1 as int,
            ) && pos <= p.1 <= s@.len() && (pos < s@.len() ==> pos < p.1),
            Err(e) => spec_csv_record(s@, pos as int) == RecordStep::Fail(e),
        },
{
    let mut cells: Vec<(String, bool)> = Vec::new();
    let mut cur: usize = pos;
    loop
        invariant
            pos <= cur <= s@.len(),
            pos < s@.len() || pos == cur,
            forall|t: Seq<(Seq<char>, bool)>, n: int|
                spec_csv_record(s@, cur as int) == RecordStep::Done(t, n)
                    ==> spec_csv_record(s@, pos as int) == RecordStep::Done(
                    cells_model(cells) + t,
                    n,
                ),
            forall|e: CsvParseError|
                spec_csv_record(s@, cur as int) == RecordStep::Fail(e) ==> spec_csv_record(
                    s@,
                    pos as int,
                ) == RecordStep::Fail(e),
        decreases s@.len() - cur,
    {
        let ghost cur0 = cur as int;
        let ghost cellsm0 = cells_model(cells);
        let (text, quoted, n) = match csv_field(s, cur) {
            Ok(p) => p,
            Err(e) => {
                return Err(e);
            },
        };
        let key = crate::convert::string_from_chars(&text);
        let ghost cell = (text@, quoted);
        cells.push((key, quoted));
        proof {
            assert(cells_model(cells) =~= cellsm0.push(cell));
        }
        if n == s.len() {
            proof {
                assert(cellsm0.push(cell) =~= cellsm0 + seq![cell]);
            }
            return Ok((cells, n));
        }
        let t = s[n];
        if t == ',' {
            proof {
                assert(csv_adv(s@, cur0, n as int + 1) == n + 1);
            }
            cur = n + 1;
            proof {
                lemma_step_record(s@, pos as int, cur0, cur as int, cellsm0, cell);
            }
            continue ;
        }
        if t == '\r' && n + 1 < s.len() && s[n + 1] == '\n' {
            proof {
                assert(cellsm0.push(cell) =~= cellsm0 + seq![cell]);
            }
            return Ok((cells, n + 2));
        }
        if nl_char(t) {
            proof {
                assert(cellsm0.push(cell) =~= cellsm0 + seq![cell]);
            }
            return Ok((cells, n + 1));
        }
        return Err(CsvParseError::UnexpectedNewline);
    }
}

/// Taking one field keeps the loop equation of the record scanner.
proof fn lemma_step_record(
    s: Seq<char>,
    pos: int,
    iold: int,
    inew: int,
    cells0: Seq<(Seq<char>, bool)>,
    cell: (Seq<char>, bool),
)
    requires
        forall|t: Seq<(Seq<char>, bool)>, n: int|
            spec_csv_record(s, iold) == RecordStep::Done(t, n) ==> spec_csv_record(s, pos)
                == RecordStep::Done(cells0 + t, n),
        forall|e: CsvParseError|
            spec_csv_record(s, iold) == RecordStep::Fail(e) ==> spec_csv_record(s, pos)
                == RecordStep::Fail(e),
        forall|t: Seq<(Seq<char>, bool)>, n: int|
            spec_csv_record(s, inew) == RecordStep::Done(t, n) ==> spec_csv_record(s, iold)
                == RecordStep::Done(seq![cell] + t, n),
        forall|e: CsvParseError|
            spec_csv_record(s, inew) == RecordStep::Fail(e) ==> spec_csv_record(s, iold)
                == RecordStep::Fail(e),
    ensures
        forall|t: Seq<(Seq<char>, bool)>, n: int|
            spec_csv_record(s, inew) == RecordStep::Done(t, n) ==> spec_csv_record(s, pos)
                == RecordStep::Done(cells0.push(cell) + t, n),
        forall|e: CsvParseError|
            spec_csv_record(s, inew) == RecordStep::Fail(e) ==> spec_csv_record(s, pos)
                == RecordStep::Fail(e),
{
    assert forall|t: Seq<(Seq<char>, bool)>, n: int|
        spec_csv_record(s, inew) == RecordStep::Done(t, n) implies spec_csv_record(s, pos)
        == RecordStep::Done(cells0.push(cell) + t, n) by {
        assert(spec_csv_record(s, iold) == RecordStep::Done(seq![cell] + t, n));
        assert(spec_csv_record(s, pos) == RecordStep::Done(cells0 + (seq![cell] + t), n));
        assert(cells0 + (seq![cell] + t) =~= cells0.push(cell) + t);
    }
}

/// Scans every record of the input.
fn csv_rows(s: &Vec<char>) -> (r: Result<Vec<Vec<(String, bool)>>, CsvParseError>)
    ensures
        match r {
            Ok(rows) => spec_csv_rows(s@, 0) == RowsStep::Done(cellrows_model(rows)),
            Err(e) => spec_csv_rows(s@, 0) == RowsStep::Fail(e),
        },
{
    let mut rows: Vec<Vec<(String, bool)>> = Vec::new();
    let mut cur: usize = 0;
    loop
        invariant
            cur <= s@.len(),
            forall|t: Seq<Seq<(Seq<char>, bool)>>|
                spec_csv_rows(s@, cur as int) == RowsStep::Done(t) ==> spec_csv_rows(s@, 0)
                    == RowsStep::Done(cellrows_model(rows) + t),
            forall|e: CsvParseError|
                spec_csv_rows(s@, cur as int) == RowsStep::Fail(e) ==> spec_csv_rows(s@, 0)
                    == RowsStep::Fail(e),
        decreases s@.len() - cur,
    {
        if cur == s.len() {
            proof {
                assert(cellrows_model(rows) + Seq::<Seq<(Seq<char>, bool)>>::empty()
                    =~= cellrows_model(rows));
            }
            return Ok(rows);
        }
        let ghost cur0 = cur as int;
        let ghost rowsm0 = cellrows_model(rows);
        let (cells, next) = match csv_record(s, cur) {
            Ok(p) => p,
            Err(e) => {
                return Err(e);
            },
        };
        let ghost cellm = cells_model(cells);
        rows.push(cells);
        proof {
            assert(cellrows_model(rows) =~= rowsm0.push(cellm));
            assert(csv_adv(s@, cur0, next as int) == next as int);
        }
        cur = next;
        proof {
            assert forall|t: Seq<Seq<(Seq<char>, bool)>>|
                spec_csv_rows(s@, cur as int) == RowsStep::Done(t) implies spec_csv_rows(s@, 0)
                == RowsStep::Done(cellrows_model(rows) + t) by {
                assert(spec_csv_rows(s@, cur0) == RowsStep::Done(seq![cellm] + t));
                assert(spec_csv_rows(s@, 0) == RowsStep::Done(rowsm0 + (seq![cellm] + t)));
                assert(rowsm0 + (seq![cellm] + t) =~= rowsm0.push(cellm) + t);
            }
        }
    }
}

/// Turns a record's cells into the scalar values they denote.
fn cells_to_values(cells: &Vec<(String, bool)>) -> (r: Vec<MawuValue>)
    ensures
        crate::mawu_value::row_model(r) == convert_cells(cells_model(*cells)),
{
    let mut out: Vec<MawuValue> = Vec::new();
    let mut i: usize = 0;
    while i < cells.len()
        invariant
            i <= cells@.len(),
            out@.len() == i,
            forall|j: int|
                0 <= j < i ==> (#[trigger] out@[j])@ == cell_model(cells@[j].0@, cells@[j].1),
        decreases cells@.len() - i,
    {
        let quoted = cells[i].1;
        let v: MawuValue = if quoted && cells[i].0.as_str().unicode_len() == 0 {
            let t = String::new();
            MawuValue::Text(t)
        } else {
            MawuValue::from(cells[i].0.as_str())
        };
        proof {
            if quoted && cells@[i as int].0@.len() == 0 {
                assert(v@ == ValueModel::Text(Seq::<char>::empty()));
            }
        }
        out.push(v);
        i = i + 1;
    }
    proof {
        crate::model::lemma_row_model_len(out);
        assert forall|j: int|
            0 <= j < out@.len() implies #[trigger] crate::mawu_value::row_model(out)[j]
            == convert_cells(cells_model(*cells))[j] by {
            crate::model::lemma_row_model_index(out, j);
        }
        assert(crate::mawu_value::row_model(out) =~= convert_cells(cells_model(*cells)));
    }
    out
}

/// Pads a value row on the right with nulls up to the anchor width.
fn pad_values(vals: Vec<MawuValue>, w: usize) -> (r: Vec<MawuValue>)
    ensures
        crate::mawu_value::row_model(r) == pad_row(
            crate::mawu_value::row_model(vals),
            w as int,
        ),
{
    let ghost vm = crate::mawu_value::row_model(vals);
    proof {
        crate::model::lemma_row_model_len(vals);
    }
    let mut out = vals;
    proof {
        assert(crate::mawu_value::row_model(out) =~= vm + Seq::new(
            0,
            |i: int| ValueModel::Null,
        ));
    }
    while out.len() < w
        invariant
            vm.len() <= w as int ==> crate::mawu_value::row_model(out) == vm + Seq::new(
                (out@.len() - vm.len()) as nat,
                |i: int| ValueModel::Null,
            ),
            vm.len() > w as int ==> out@.len() == vm.len() && crate::mawu_value::row_model(out)
                == vm,
            vm.len() <= w as int ==> out@.len() <= w as int,
            out@.len() >= vm.len(),
        decreases w - out@.len(),
    {
        let ghost out0 = out;
        let ghost blen = out@.len() as int;
        out.push(MawuValue::Null);
        proof {
            crate::model::lemma_row_model_len(out);
            crate::model::lemma_row_model_len(out0);
            assert forall|j: int|
                0 <= j < out@.len() implies #[trigger] crate::mawu_value::row_model(out)[j] == (
                vm + Seq::new((out@.len() - vm.len()) as nat, |i: int| ValueModel::Null))[j] by {
                crate::model::lemma_row_model_index(out, j);
                if j < blen {
                    crate::model::lemma_row_model_index(out0, j);
                }
            }
            assert(crate::mawu_value::row_model(out) =~= vm + Seq::new(
                (out@.len() - vm.len()) as nat,
                |i: int| ValueModel::Null,
            ));
        }
    }
    proof {
        crate::model::lemma_row_model_len(out);
        if vm.len() < w as int {
            assert(crate::mawu_value::row_model(out) == pad_row(vm, w as int));
        } else {
            assert(vm + Seq::new(0, |i: int| ValueModel::Null) =~= vm);
        }
    }
    out
}

/// Parses a headless CSV text: the first row anchors the width and is
/// never padded; every later row is padded to that width.
pub fn headless(file_contents: Vec<char>) -> (r: Result<MawuValue, MawuError>)
    ensures
        match r {
            Ok(v) => spec_csv_headless(file_contents@) == Ok::<ValueModel, MawuError>(v@),
            Err(e) => spec_csv_headless(file_contents@) == Err::<ValueModel, MawuError>(e),
        },
{
    let rows = match csv_rows(&file_contents) {
        Ok(rows) => rows,
        Err(e) => {
            return Err(MawuError::CsvError(CsvError::ParseError(e)));
        },
    };
    let ghost rm = cellrows_model(rows);
    if rows.len() == 0 {
        return Err(MawuError::CsvError(CsvError::ParseError(CsvParseError::UnrecognizedHeader)));
    }
    let w = rows[0].len();
    proof {
        assert(rm[0] == cells_model(rows@[0]));
        assert(rm[0].len() == rows@[0]@.len());
    }
    let mut out: Vec<Vec<MawuValue>> = Vec::new();
    let row0 = cells_to_values(&rows[0]);
    out.push(row0);
    let mut k: usize = 1;
    while k < rows.len()
        invariant
            1 <= k <= rows@.len(),
            rm == cellrows_model(rows),
            rm.len() == rows@.len(),
            rm[0].len() == w as int,
            out@.len() == k,
            crate::mawu_value::rows_model(out) == seq![convert_cells(rm[0])] + padded_rows(
                rm.subrange(1, k as int),
                w as int,
            ),
        decreases rows@.len() - k,
    {
        let ghost out0 = out;
        let vals = cells_to_values(&rows[k]);
        let padded = pad_values(vals, w);
        out.push(padded);
        k = k + 1;
        proof {
            crate::model::lemma_rows_model_len(out);
            crate::model::lemma_rows_model_len(out0);
            assert forall|j: int|
                0 <= j < out@.len() implies #[trigger] crate::mawu_value::rows_model(out)[j] == (
                seq![convert_cells(rm[0])] + padded_rows(rm.subrange(1, k as int), w as int))[j] by {
                crate::model::lemma_rows_model_index(out, j);
                if j < out@.len() - 1 {
                    crate::model::lemma_rows_model_index(out0, j);
                }
            }
            assert(crate::mawu_value::rows_model(out) =~= seq![convert_cells(rm[0])]
                + padded_rows(rm.subrange(1, k as int), w as int));
        }
    }
    let result = MawuValue::CSVArray(out);
    proof {
        assert(rm.subrange(1, rm.len() as int) =~= rm.drop_first());
        assert(result@ == ValueModel::CSVArray(
            crate::mawu_value::rows_model(result->CSVArray_0),
        ));
    }
    Ok(result)
}

/// The model of a key list.
pub open spec fn keys_model(keys: Vec<String>) -> Seq<Seq<char>> {
    Seq::new(
        keys@.len(),
        |i: int|
            if 0 <= i < keys@.len() {
                keys@[i]@
            } else {
                Seq::empty()
            },
    )
}

/// Builds one record of a headed table: the keys written in order against
/// the padded values, a duplicate key keeping the later value.
fn record_of_row(keys: &Vec<String>, vals: &Vec<MawuValue>) -> (r: Vec<(String, MawuValue)>)
    requires
        vals@.len() == keys@.len(),
    ensures
        entries_model(r) == build_entries(
            keys_model(*keys),
            crate::mawu_value::row_model(*vals),
            0,
            Seq::empty(),
        ),
{
    let ghost km = keys_model(*keys);
    let ghost vm = crate::mawu_value::row_model(*vals);
    proof {
        crate::model::lemma_row_model_len(*vals);
    }
    let mut rec: Vec<(String, MawuValue)> = Vec::new();
    proof {
        crate::model::lemma_entries_model_len(rec);
        assert(entries_model(rec) =~= Seq::<(Seq<char>, ValueModel)>::empty());
    }
    let mut kk: usize = 0;
    while kk < keys.len()
        invariant
            kk <= keys@.len(),
            km == keys_model(*keys),
            vm == crate::mawu_value::row_model(*vals),
            km.len() == keys@.len(),
            vm.len() == keys@.len(),
            build_entries(km, vm, 0, Seq::empty()) == build_entries(
                km,
                vm,
                kk as int,
                entries_model(rec),
            ),
        decreases keys@.len() - kk,
    {
        let key = keys[kk].clone();
        let val = vals[kk].clone();
        proof {
            crate::model::lemma_row_model_index(*vals, kk as int);
            assert(key@ == km[kk as int]);
            assert(val@ == vm[kk as int]);
        }
        put_entry(&mut rec, key, val);
        kk = kk + 1;
    }
    proof {
        assert(build_entries(km, vm, keys@.len() as int, entries_model(rec)) == entries_model(
            rec,
        ));
    }
    rec
}

/// Parses a headed CSV text: the first record supplies the keys, every
/// later record becomes a mapping padded to the header width, and a record
/// wider than the header is fatal.
pub fn headed(file_contents: Vec<char>) -> (r: Result<MawuValue, MawuError>)
    ensures
        match r {
            Ok(v) => spec_csv_headed(file_contents@) == Ok::<ValueModel, MawuError>(v@),
            Err(e) => spec_csv_headed(file_contents@) == Err::<ValueModel, MawuError>(e),
        },
{
    let rows = match csv_rows(&file_contents) {
        Ok(rows) => rows,
        Err(e) => {
            return Err(MawuError::CsvError(CsvError::ParseError(e)));
        },
    };
    let ghost rm = cellrows_model(rows);
    if rows.len() == 0 {
        return Err(MawuError::CsvError(CsvError::ParseError(CsvParseError::UnrecognizedHeader)));
    }
    let header = &rows[0];
    let mut keys: Vec<String> = Vec::new();
    let mut i: usize = 0;
    while i < header.len()
        invariant
            i <= header@.len(),
            header == &rows@[0],
            rm == cellrows_model(rows),
            rows@.len() > 0,
            keys@.len() == i,
            forall|j: int| 0 <= j < i ==> (#[trigger] keys@[j])@ == rm[0][j].0,
        decreases header@.len() - i,
    {
        let key = header[i].0.clone();
        keys.push(key);
        i = i + 1;
    }
    proof {
        assert(rm[0] == cells_model(rows@[0]));
        assert(keys_model(keys) =~= Seq::new(
            rm[0].len(),
            |q: int|
                if 0 <= q < rm[0].len() {
                    rm[0][q].0
                } else {
                    Seq::empty()
                },
        ));
    }
    let ghost km = keys_model(keys);
    let w = keys.len();
    let mut records: Vec<Vec<(String, MawuValue)>> = Vec::new();
    proof {
        crate::model::lemma_entry_rows_model_len(records);
        assert(crate::mawu_value::entry_rows_model(records) =~= Seq::<
            Seq<(Seq<char>, ValueModel)>,
        >::empty());
    }
    let mut k: usize = 1;
    while k < rows.len()
        invariant
            1 <= k <= rows@.len(),
            rm == cellrows_model(rows),
            rm.len() == rows@.len(),
            rows@.len() > 0,
            spec_csv_rows(file_contents@, 0) == RowsStep::Done(rm),
            km == keys_model(keys),
            km.len() == w as int,
            keys@.len() == w,
            km == Seq::new(
                rm[0].len(),
                |q: int|
                    if 0 <= q < rm[0].len() {
                        rm[0][q].0
                    } else {
                        Seq::empty()
                    },
            ),
            spec_headed_records(rm, km, k as int) is Ok ==> spec_headed_records(rm, km, 1)
                == Ok::<_, CsvParseError>(
                crate::mawu_value::entry_rows_model(records) + spec_headed_records(
                    rm,
                    km,
                    k as int,
                )->Ok_0,
            ),
            spec_headed_records(rm, km, k as int) is Err ==> spec_headed_records(rm, km, 1)
                == spec_headed_records(rm, km, k as int),
        decreases rows@.len() - k,
    {
        let ghost recs0 = crate::mawu_value::entry_rows_model(records);
        proof {
            assert(rm[k as int] == cells_model(rows@[k as int]));
        }
        if rows[k].len() > w {
            return Err(
                MawuError::CsvError(CsvError::ParseError(CsvParseError::ExtraValue(rows[k].len()))),
            );
        }
        let vals = cells_to_values(&rows[k]);
        let padded = pad_values(vals, w);
        proof {
            crate::model::lemma_row_model_len(padded);
        }
        let rec = record_of_row(&keys, &padded);
        let ghost recm = entries_model(rec);
        records.push(rec);
        k = k + 1;
        proof {
            crate::model::lemma_entry_rows_model_len(records);
            assert forall|j: int|
                0 <= j < records@.len() implies #[trigger] crate::mawu_value::entry_rows_model(
                records,
            )[j] == recs0.push(recm)[j] by {
                crate::model::lemma_entry_rows_model_index(records, j);
            }
            assert(crate::mawu_value::entry_rows_model(records) =~= recs0.push(recm));
            if spec_headed_records(rm, km, k as int) is Ok {
                assert(recs0 + (seq![recm] + spec_headed_records(rm, km, k as int)->Ok_0)
                    =~= recs0.push(recm) + spec_headed_records(rm, km, k as int)->Ok_0);
            }
        }
    }
    proof {
        assert(spec_headed_records(rm, km, rows@.len() as int) == Ok::<_, CsvParseError>(
            Seq::<Seq<(Seq<char>, ValueModel)>>::empty(),
        ));
        assert(crate::mawu_value::entry_rows_model(records) + Seq::<
            Seq<(Seq<char>, ValueModel)>,
        >::empty() =~= crate::mawu_value::entry_rows_model(records));
    }
    let result = MawuValue::CSVObject(records);
    proof {
        assert(result@ == ValueModel::CSVObject(
            crate::mawu_value::entry_rows_model(result->CSVObject_0),
        ));
    }
    Ok(result)
}

} // verus!
