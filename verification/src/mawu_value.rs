//! The unified value model: a tagged union shared by both parsers and both
//! serializers, with its mathematical model and its accessors.

use vstd::prelude::*;

use crate::convert::chars_of;
use crate::convert::float_bits_of;
use crate::convert::parse_float_bits;
use crate::convert::string_from_chars;
use crate::errors::ValueKind;
pub use crate::model::entries_model;
pub use crate::model::entry_rows_model;
pub use crate::model::row_model;
pub use crate::model::rows_model;
pub use crate::model::ValueModel;
use crate::numbers::float_is_infinite;
use crate::numbers::float_is_nan;
use crate::numbers::float_non_finite;
use crate::numbers::parse_i64_text;
use crate::numbers::parse_u64_text;
use crate::numbers::spec_parse_i64;
use crate::numbers::spec_parse_u64;

verus! {



/// MawuValue wraps all data types this library reads and writes: the JSON
/// scalars and containers, and the two CSV table shapes. Floats are carried
/// as the IEEE-754 bit pattern of the 64-bit value.
#[derive(Debug)]
pub enum MawuValue {
    /// Only used to hold a headed CSV table: one key/value record per row.
    CSVObject(Vec<Vec<(String, MawuValue)>>),
    /// Only used to hold a headless CSV table: one value row per line.
    CSVArray(Vec<Vec<MawuValue>>),
    /// A JSON object: key/value entries with unique keys.
    Object(Vec<(String, MawuValue)>),
    /// A JSON array.
    Array(Vec<MawuValue>),
    /// An unsigned integer.
    Uint(u64),
    /// A signed integer.
    Int(i64),
    /// A 64-bit float, carried as its IEEE-754 bit pattern.
    Float(u64),
    /// A string.
    Text(String),
    /// A bool.
    Bool(bool),
    /// An empty or null value.
    Null,
}

/// The kind of a model value, as error reports name it.
pub open spec fn model_kind(m: ValueModel) -> ValueKind {
    match m {
        ValueModel::CSVObject(_) => ValueKind::CSVObject,
        ValueModel::CSVArray(_) => ValueKind::CSVArray,
        ValueModel::Object(_) => ValueKind::Object,
        ValueModel::Array(_) => ValueKind::Array,
        ValueModel::Uint(_) => ValueKind::Uint,
        ValueModel::Int(_) => ValueKind::Int,
        ValueModel::Float(_) => ValueKind::Float,
        ValueModel::Text(_) => ValueKind::Text,
        ValueModel::Bool(_) => ValueKind::Bool,
        ValueModel::Null => ValueKind::Null,
    }
}

/// The index of the first entry with the given key, or -1 where no entry
/// has it.
pub open spec fn entries_find(entries: Seq<(Seq<char>, ValueModel)>, key: Seq<char>) -> int
    decreases entries.len(),
{
    if entries.len() == 0 {
        -1
    } else if entries[0].0 == key {
        0
    } else {
        let rest = entries_find(entries.drop_first(), key);
        if rest < 0 {
            -1
        } else {
            rest + 1
        }
    }
}

/// Whether some entry has the given key.
pub open spec fn entries_has_key(entries: Seq<(Seq<char>, ValueModel)>, key: Seq<char>) -> bool {
    entries_find(entries, key) >= 0
}

/// The value of the first entry with the given key, if any entry has it.
pub open spec fn entries_get(entries: Seq<(Seq<char>, ValueModel)>, key: Seq<char>) -> Option<
    ValueModel,
> {
    if entries_has_key(entries, key) {
        Some(entries[entries_find(entries, key)].1)
    } else {
        None
    }
}

/// The entries after writing the given key: the first entry with that key is
/// overwritten in place, and a fresh key is appended at the end.
pub open spec fn entries_put(
    entries: Seq<(Seq<char>, ValueModel)>,
    key: Seq<char>,
    value: ValueModel,
) -> Seq<(Seq<char>, ValueModel)> {
    if entries_has_key(entries, key) {
        entries.update(entries_find(entries, key), (key, value))
    } else {
        entries.push((key, value))
    }
}

/// The entries after removing the given key: the first entry with that key
/// leaves, and entries without it stay as they are.
pub open spec fn entries_drop(entries: Seq<(Seq<char>, ValueModel)>, key: Seq<char>) -> Seq<
    (Seq<char>, ValueModel),
> {
    if entries_has_key(entries, key) {
        entries.remove(entries_find(entries, key))
    } else {
        entries
    }
}

/// Whether no two entries share a key.
pub open spec fn entries_unique(entries: Seq<(Seq<char>, ValueModel)>) -> bool {
    forall|i: int, j: int|
        0 <= i < j < entries.len() ==> (#[trigger] entries[i]).0 != (#[trigger] entries[j]).0
}

/// What `entries_find` finds is the first match: it names a matching entry,
/// and no entry before it matches; -1 means no entry matches at all.
pub proof fn lemma_entries_find(entries: Seq<(Seq<char>, ValueModel)>, key: Seq<char>)
    ensures
        entries_find(entries, key) == -1 ==> forall|j: int|
            0 <= j < entries.len() ==> (#[trigger] entries[j]).0 != key,
        entries_find(entries, key) >= 0 ==> {
            &&& entries_find(entries, key) < entries.len()
            &&& entries[entries_find(entries, key)].0 == key
            &&& forall|j: int|
                0 <= j < entries_find(entries, key) ==> (#[trigger] entries[j]).0 != key
        },
    decreases entries.len(),
{
    if entries.len() > 0 && entries[0].0 != key {
        let rest = entries.drop_first();
        lemma_entries_find(rest, key);
        if entries_find(entries, key) == -1 {
            assert forall|j: int| 0 <= j < entries.len() implies (#[trigger] entries[j]).0
                != key by {
                if j > 0 {
                    assert(entries[j] == rest[j - 1]);
                }
            }
        } else {
            let f = entries_find(entries, key);
            assert(entries[f] == rest[f - 1]);
            assert forall|j: int| 0 <= j < f implies (#[trigger] entries[j]).0 != key by {
                if j > 0 {
                    assert(entries[j] == rest[j - 1]);
                }
            }
        }
    }
}

/// The numeric literal selection policy, applied wherever free text must
/// become a scalar value, in both formats: empty text is null; then an
/// unsigned-integer parse, a signed-integer parse and a 64-bit float parse
/// are attempted in that order and the first success wins; a float that
/// parses to a NaN or an infinity (the overflow case) resolves to null;
/// then the two boolean spellings; everything else is text.
pub open spec fn scalar_model_of_text(s: Seq<char>) -> ValueModel {
    if s.len() == 0 {
        ValueModel::Null
    } else if spec_parse_u64(s) is Some {
        ValueModel::Uint(spec_parse_u64(s)->Some_0)
    } else if spec_parse_i64(s) is Some {
        ValueModel::Int(spec_parse_i64(s)->Some_0)
    } else if float_bits_of(s) is Some {
        let b = float_bits_of(s)->Some_0;
        if float_is_nan(b) || float_is_infinite(b) {
            ValueModel::Null
        } else {
            ValueModel::Float(b)
        }
    } else if s == "true"@ {
        ValueModel::Bool(true)
    } else if s == "false"@ {
        ValueModel::Bool(false)
    } else {
        ValueModel::Text(s)
    }
}

impl MawuValue {
    /// Builds the scalar value that a run of free text denotes, by the
    /// numeric literal selection policy.
    pub fn from(value: &str) -> (r: MawuValue)
        ensures
            r@ == scalar_model_of_text(value@),
    {
        let chars = chars_of(value);
        MawuValue::from_text_chars(&chars)
    }

    /// Builds the scalar value that a run of free text denotes, by the
    /// numeric literal selection policy, from a character vector.
    pub fn from_text_chars(s: &Vec<char>) -> (r: MawuValue)
        ensures
            r@ == scalar_model_of_text(s@),
    {
        if s.len() == 0 {
            return MawuValue::Null;
        }
        if let Some(u) = parse_u64_text(s) {
            return MawuValue::Uint(u);
        }
        if let Some(i) = parse_i64_text(s) {
            return MawuValue::Int(i);
        }
        let text = string_from_chars(s);
        if let Some(b) = parse_float_bits(text.as_str()) {
            if float_non_finite(b) {
                return MawuValue::Null;
            }
            return MawuValue::Float(b);
        }
        if text == String::from_str("true") {
            return MawuValue::Bool(true);
        }
        if text == String::from_str("false") {
            return MawuValue::Bool(false);
        }
        MawuValue::Text(text)
    }
}

impl MawuValue {
    /// Whether this value and `other` carry the same data: same variant,
    /// same scalar, and element-wise equal contents.
    pub fn value_eq(&self, other: &MawuValue) -> (r: bool)
        ensures
            r == (self@ == other@),
        decreases self,
    {
        match (self, other) {
            (MawuValue::Null, MawuValue::Null) => true,
            (MawuValue::Bool(a), MawuValue::Bool(b)) => *a == *b,
            (MawuValue::Uint(a), MawuValue::Uint(b)) => *a == *b,
            (MawuValue::Int(a), MawuValue::Int(b)) => *a == *b,
            (MawuValue::Float(a), MawuValue::Float(b)) => *a == *b,
            (MawuValue::Text(a), MawuValue::Text(b)) => a.eq(b),
            (MawuValue::Array(a), MawuValue::Array(b)) => row_eq(a, b),
            (MawuValue::Object(a), MawuValue::Object(b)) => entries_eq(a, b),
            (MawuValue::CSVArray(a), MawuValue::CSVArray(b)) => rows_eq(a, b),
            (MawuValue::CSVObject(a), MawuValue::CSVObject(b)) => entry_rows_eq(a, b),
            _ => {
                proof {
                    assert(self@ != other@);
                }
                false
            },
        }
    }
}

/// Whether two row lists carry pairwise equal rows.
fn rows_eq(a: &Vec<Vec<MawuValue>>, b: &Vec<Vec<MawuValue>>) -> (r: bool)
    ensures
        r == (rows_model(*a) == rows_model(*b)),
    decreases a,
{
    if a.len() != b.len() {
        assert(rows_model(*a).len() != rows_model(*b).len());
        return false;
    }
    let mut i: usize = 0;
    while i < a.len()
        invariant
            i <= a@.len(),
            a@.len() == b@.len(),
            forall|j: int| 0 <= j < i ==> row_model(a@[j]) == row_model(b@[j]),
        decreases a@.len() - i,
    {
        if !row_eq(&a[i], &b[i]) {
            assert(rows_model(*a)[i as int] != rows_model(*b)[i as int]);
            return false;
        }
        i = i + 1;
    }
    proof {
        assert(rows_model(*a) =~= rows_model(*b));
    }
    true
}

/// Whether two entry-row lists carry pairwise equal records.
fn entry_rows_eq(a: &Vec<Vec<(String, MawuValue)>>, b: &Vec<Vec<(String, MawuValue)>>) -> (r:
    bool)
    ensures
        r == (entry_rows_model(*a) == entry_rows_model(*b)),
    decreases a,
{
    if a.len() != b.len() {
        assert(entry_rows_model(*a).len() != entry_rows_model(*b).len());
        return false;
    }
    let mut i: usize = 0;
    while i < a.len()
        invariant
            i <= a@.len(),
            a@.len() == b@.len(),
            forall|j: int| 0 <= j < i ==> entries_model(a@[j]) == entries_model(b@[j]),
        decreases a@.len() - i,
    {
        if !entries_eq(&a[i], &b[i]) {
            assert(entry_rows_model(*a)[i as int] != entry_rows_model(*b)[i as int]);
            return false;
        }
        i = i + 1;
    }
    proof {
        assert(entry_rows_model(*a) =~= entry_rows_model(*b));
    }
    true
}

/// Whether two value rows carry element-wise equal contents.
fn row_eq(a: &Vec<MawuValue>, b: &Vec<MawuValue>) -> (r: bool)
    ensures
        r == (row_model(*a) == row_model(*b)),
    decreases a,
{
    if a.len() != b.len() {
        assert(row_model(*a).len() != row_model(*b).len());
        return false;
    }
    let mut i: usize = 0;
    while i < a.len()
        invariant
            i <= a@.len(),
            a@.len() == b@.len(),
            forall|j: int| 0 <= j < i ==> a@[j]@ == b@[j]@,
        decreases a@.len() - i,
    {
        if !a[i].value_eq(&b[i]) {
            assert(row_model(*a)[i as int] != row_model(*b)[i as int]);
            return false;
        }
        i = i + 1;
    }
    proof {
        assert(row_model(*a) =~= row_model(*b));
    }
    true
}

/// Whether two entry lists carry pairwise equal keys and values.
fn entries_eq(a: &Vec<(String, MawuValue)>, b: &Vec<(String, MawuValue)>) -> (r: bool)
    ensures
        r == (entries_model(*a) == entries_model(*b)),
    decreases a,
{
    if a.len() != b.len() {
        assert(entries_model(*a).len() != entries_model(*b).len());
        return false;
    }
    let mut i: usize = 0;
    while i < a.len()
        invariant
            i <= a@.len(),
            a@.len() == b@.len(),
            forall|j: int| 0 <= j < i ==> a@[j].0@ == b@[j].0@ && a@[j].1@ == b@[j].1@,
        decreases a@.len() - i,
    {
        let keys_equal = a[i].0 == b[i].0;
        if !keys_equal || !a[i].1.value_eq(&b[i].1) {
            assert(entries_model(*a)[i as int] != entries_model(*b)[i as int]);
            return false;
        }
        i = i + 1;
    }
    proof {
        assert(entries_model(*a) =~= entries_model(*b));
    }
    true
}

impl PartialEq for MawuValue {
    fn eq(&self, other: &Self) -> (r: bool) {
        self.value_eq(other)
    }
}

impl vstd::std_specs::cmp::PartialEqSpecImpl for MawuValue {
    open spec fn obeys_eq_spec() -> bool {
        true
    }

    open spec fn eq_spec(&self, other: &Self) -> bool {
        self@ == other@
    }
}

impl Clone for MawuValue {
    /// A clone carries the same data as the value it was made from.
    fn clone(&self) -> (r: Self)
        ensures
            r@ == self@,
    {
        clone_value(self)
    }
}

fn clone_value(v: &MawuValue) -> (r: MawuValue)
    ensures
        r@ == v@,
    decreases v,
{
    match v {
        MawuValue::Null => MawuValue::Null,
        MawuValue::Bool(b) => MawuValue::Bool(*b),
        MawuValue::Uint(u) => MawuValue::Uint(*u),
        MawuValue::Int(i) => MawuValue::Int(*i),
        MawuValue::Float(bits) => MawuValue::Float(*bits),
        MawuValue::Text(s) => MawuValue::Text(s.clone()),
        MawuValue::Array(items) => MawuValue::Array(clone_row(items)),
        MawuValue::Object(entries) => MawuValue::Object(clone_entries(entries)),
        MawuValue::CSVArray(rows) => MawuValue::CSVArray(clone_rows(rows)),
        MawuValue::CSVObject(rows) => MawuValue::CSVObject(clone_entry_rows(rows)),
    }
}

fn clone_rows(rows: &Vec<Vec<MawuValue>>) -> (r: Vec<Vec<MawuValue>>)
    ensures
        rows_model(r) == rows_model(*rows),
    decreases rows,
{
    let mut out: Vec<Vec<MawuValue>> = Vec::new();
    let mut i: usize = 0;
    while i < rows.len()
        invariant
            i <= rows@.len(),
            out@.len() == i,
            forall|j: int| 0 <= j < i ==> row_model(#[trigger] out@[j]) == row_model(rows@[j]),
        decreases rows@.len() - i,
    {
        let row = clone_row(&rows[i]);
        out.push(row);
        i = i + 1;
    }
    proof {
        assert(rows_model(out) =~= rows_model(*rows));
    }
    out
}

fn clone_entry_rows(rows: &Vec<Vec<(String, MawuValue)>>) -> (r: Vec<Vec<(String, MawuValue)>>)
    ensures
        entry_rows_model(r) == entry_rows_model(*rows),
    decreases rows,
{
    let mut out: Vec<Vec<(String, MawuValue)>> = Vec::new();
    let mut i: usize = 0;
    while i < rows.len()
        invariant
            i <= rows@.len(),
            out@.len() == i,
            forall|j: int| 0 <= j < i ==> entries_model(#[trigger] out@[j]) == entries_model(
                rows@[j],
            ),
        decreases rows@.len() - i,
    {
        let row = clone_entries(&rows[i]);
        out.push(row);
        i = i + 1;
    }
    proof {
        assert(entry_rows_model(out) =~= entry_rows_model(*rows));
    }
    out
}

fn clone_row(items: &Vec<MawuValue>) -> (r: Vec<MawuValue>)
    ensures
        row_model(r) == row_model(*items),
    decreases items,
{
    let mut out: Vec<MawuValue> = Vec::new();
    let mut i: usize = 0;
    while i < items.len()
        invariant
            i <= items@.len(),
            out@.len() == i,
            forall|j: int| 0 <= j < i ==> (#[trigger] out@[j])@ == items@[j]@,
        decreases items@.len() - i,
    {
        let item = clone_value(&items[i]);
        out.push(item);
        i = i + 1;
    }
    proof {
        assert(row_model(out) =~= row_model(*items));
    }
    out
}

fn clone_entries(entries: &Vec<(String, MawuValue)>) -> (r: Vec<(String, MawuValue)>)
    ensures
        entries_model(r) == entries_model(*entries),
    decreases entries,
{
    let mut out: Vec<(String, MawuValue)> = Vec::new();
    let mut i: usize = 0;
    while i < entries.len()
        invariant
            i <= entries@.len(),
            out@.len() == i,
            forall|j: int| 0 <= j < i ==> (#[trigger] out@[j]).0@ == entries@[j].0@
                && out@[j].1@ == entries@[j].1@,
        decreases entries@.len() - i,
    {
        let key = entries[i].0.clone();
        let value = clone_value(&entries[i].1);
        out.push((key, value));
        i = i + 1;
    }
    proof {
        assert(entries_model(out) =~= entries_model(*entries));
    }
    out
}

impl MawuValue {
    /// The kind of this value, for error reports.
    pub fn kind(&self) -> (r: ValueKind)
        ensures
            r == model_kind(self@),
    {
        match self {
            MawuValue::CSVObject(_) => ValueKind::CSVObject,
            MawuValue::CSVArray(_) => ValueKind::CSVArray,
            MawuValue::Object(_) => ValueKind::Object,
            MawuValue::Array(_) => ValueKind::Array,
            MawuValue::Uint(_) => ValueKind::Uint,
            MawuValue::Int(_) => ValueKind::Int,
            MawuValue::Float(_) => ValueKind::Float,
            MawuValue::Text(_) => ValueKind::Text,
            MawuValue::Bool(_) => ValueKind::Bool,
            MawuValue::Null => ValueKind::Null,
        }
    }
}

/// Whether the model value is empty: containers and text with no elements,
/// numbers equal to zero, null always, booleans never.
pub open spec fn model_is_empty(m: ValueModel) -> bool {
    match m {
        ValueModel::CSVObject(rows) => rows.len() == 0,
        ValueModel::CSVArray(rows) => rows.len() == 0,
        ValueModel::Object(entries) => entries.len() == 0,
        ValueModel::Array(items) => items.len() == 0,
        ValueModel::Text(s) => s.len() == 0,
        ValueModel::Uint(v) => v == 0,
        ValueModel::Int(v) => v == 0i64,
        ValueModel::Float(b) => crate::numbers::float_is_zero(b),
        ValueModel::Bool(_) => false,
        ValueModel::Null => true,
    }
}

/// The length of the model value: element count for containers, character
/// count for text, zero for everything else.
pub open spec fn model_len(m: ValueModel) -> nat {
    match m {
        ValueModel::CSVObject(rows) => rows.len(),
        ValueModel::CSVArray(rows) => rows.len(),
        ValueModel::Object(entries) => entries.len(),
        ValueModel::Array(items) => items.len(),
        ValueModel::Text(s) => s.len(),
        _ => 0,
    }
}

/// What converting the model value to an unsigned integer yields: an
/// unsigned value itself, a strictly positive signed value, or a normal
/// float whose display text reads back as an unsigned integer.
pub open spec fn model_to_uint(m: ValueModel) -> Option<u64> {
    match m {
        ValueModel::Uint(v) => Some(v),
        ValueModel::Int(v) => if v > 0 {
            Some(v as u64)
        } else {
            None
        },
        ValueModel::Float(b) => if crate::numbers::float_is_normal(b) {
            spec_parse_u64(crate::convert::float_text_of(b))
        } else {
            None
        },
        _ => None,
    }
}

/// What converting the model value to a signed integer yields.
pub open spec fn model_to_int(m: ValueModel) -> Option<i64> {
    match m {
        ValueModel::Int(v) => Some(v),
        ValueModel::Uint(v) => if v <= i64::MAX as u64 {
            Some(v as i64)
        } else {
            None
        },
        ValueModel::Float(b) => if crate::numbers::float_is_normal(b) {
            spec_parse_i64(crate::convert::float_text_of(b))
        } else {
            None
        },
        _ => None,
    }
}

/// What converting the model value to a float yields: the float itself, or
/// an integer reread through the float parser via its decimal text.
pub open spec fn model_to_float(m: ValueModel) -> Option<u64> {
    match m {
        ValueModel::Float(b) => Some(b),
        ValueModel::Int(v) => float_bits_of(crate::numbers::int_text_of(v as int)),
        ValueModel::Uint(v) => float_bits_of(crate::numbers::digits_of(v as int)),
        _ => None,
    }
}

/// What converting the model value to a boolean yields: a boolean itself,
/// or text spelling one of the two boolean literals.
pub open spec fn model_to_bool(m: ValueModel) -> Option<bool> {
    match m {
        ValueModel::Bool(b) => Some(b),
        ValueModel::Text(s) => if s == "true"@ {
            Some(true)
        } else if s == "false"@ {
            Some(false)
        } else {
            None
        },
        _ => None,
    }
}

/// The model value after clearing: containers keep their variant and lose
/// their elements, everything else becomes null.
pub open spec fn model_cleared(m: ValueModel) -> ValueModel {
    match m {
        ValueModel::CSVObject(_) => ValueModel::CSVObject(Seq::empty()),
        ValueModel::CSVArray(_) => ValueModel::CSVArray(Seq::empty()),
        ValueModel::Object(_) => ValueModel::Object(Seq::empty()),
        ValueModel::Array(_) => ValueModel::Array(Seq::empty()),
        _ => ValueModel::Null,
    }
}

impl MawuValue {
    /// A fresh value: the null value.
    pub fn new() -> (r: Self)
        ensures
            r@ == ValueModel::Null,
    {
        MawuValue::Null
    }

    /// A fresh headed CSV table with one empty record to fill.
    #[verifier::rlimit(30)]
    pub fn new_csv_object() -> (r: MawuValue)
        ensures
            r@ == ValueModel::CSVObject(seq![Seq::empty()]),
    {
        let mut rows: Vec<Vec<(String, MawuValue)>> = Vec::new();
        rows.push(Vec::new());
        let r = MawuValue::CSVObject(rows);
        proof {
            let rs = r->CSVObject_0;
            assert(r@ == ValueModel::CSVObject(entry_rows_model(rs)));
            crate::model::lemma_entry_rows_model_len(rs);
            crate::model::lemma_entry_rows_model_index(rs, 0);
            assert(entry_rows_model(rs)[0] =~= Seq::<(Seq<char>, ValueModel)>::empty());
            assert(entry_rows_model(rs) =~= seq![Seq::<(Seq<char>, ValueModel)>::empty()]);
        }
        r
    }

    /// A fresh headless CSV table with one empty row to fill.
    #[verifier::rlimit(30)]
    pub fn new_csv_array() -> (r: MawuValue)
        ensures
            r@ == ValueModel::CSVArray(seq![Seq::empty()]),
    {
        let mut rows: Vec<Vec<MawuValue>> = Vec::new();
        rows.push(Vec::new());
        let r = MawuValue::CSVArray(rows);
        proof {
            let rs = r->CSVArray_0;
            assert(r@ == ValueModel::CSVArray(rows_model(rs)));
            crate::model::lemma_rows_model_len(rs);
            crate::model::lemma_rows_model_index(rs, 0);
            assert(rows_model(rs)[0] =~= Seq::<ValueModel>::empty());
            assert(rows_model(rs) =~= seq![Seq::<ValueModel>::empty()]);
        }
        r
    }

    /// A fresh empty object.
    pub fn new_object() -> (r: MawuValue)
        ensures
            r@ == ValueModel::Object(Seq::empty()),
    {
        let entries: Vec<(String, MawuValue)> = Vec::new();
        let r = MawuValue::Object(entries);
        proof {
            assert(r@->Object_0 =~~= Seq::<(Seq<char>, ValueModel)>::empty());
        }
        r
    }

    /// A fresh empty array.
    pub fn new_array() -> (r: MawuValue)
        ensures
            r@ == ValueModel::Array(Seq::empty()),
    {
        let items: Vec<MawuValue> = Vec::new();
        let r = MawuValue::Array(items);
        proof {
            assert(r@->Array_0 =~~= Seq::<ValueModel>::empty());
        }
        r
    }

    /// Whether the value is a headed CSV table.
    pub fn is_csv_object(&self) -> (r: bool)
        ensures
            r == (self@ is CSVObject),
    {
        matches!(self, MawuValue::CSVObject(_))
    }

    /// Whether the value is a headless CSV table.
    pub fn is_csv_array(&self) -> (r: bool)
        ensures
            r == (self@ is CSVArray),
    {
        matches!(self, MawuValue::CSVArray(_))
    }

    /// Whether the value is an object.
    pub fn is_object(&self) -> (r: bool)
        ensures
            r == (self@ is Object),
    {
        matches!(self, MawuValue::Object(_))
    }

    /// Whether the value is an array.
    pub fn is_array(&self) -> (r: bool)
        ensures
            r == (self@ is Array),
    {
        matches!(self, MawuValue::Array(_))
    }

    /// Whether the value is a string.
    pub fn is_string(&self) -> (r: bool)
        ensures
            r == (self@ is Text),
    {
        matches!(self, MawuValue::Text(_))
    }

    /// Whether the value is an unsigned integer.
    pub fn is_uint(&self) -> (r: bool)
        ensures
            r == (self@ is Uint),
    {
        matches!(self, MawuValue::Uint(_))
    }

    /// Whether the value is a signed integer.
    pub fn is_int(&self) -> (r: bool)
        ensures
            r == (self@ is Int),
    {
        matches!(self, MawuValue::Int(_))
    }

    /// Whether the value is a float.
    pub fn is_float(&self) -> (r: bool)
        ensures
            r == (self@ is Float),
    {
        matches!(self, MawuValue::Float(_))
    }

    /// Whether the value is a number of any of the three numeric variants.
    pub fn is_number(&self) -> (r: bool)
        ensures
            r == (self@ is Uint || self@ is Int || self@ is Float),
    {
        matches!(self, MawuValue::Uint(_) | MawuValue::Int(_) | MawuValue::Float(_))
    }

    /// Whether the value is a boolean.
    pub fn is_bool(&self) -> (r: bool)
        ensures
            r == (self@ is Bool),
    {
        matches!(self, MawuValue::Bool(_))
    }

    /// Whether the value is the boolean `true`.
    pub fn is_true(&self) -> (r: bool)
        ensures
            r == (self@ == ValueModel::Bool(true)),
    {
        matches!(self, MawuValue::Bool(true))
    }

    /// Whether the value is the boolean `false`.
    pub fn is_false(&self) -> (r: bool)
        ensures
            r == (self@ == ValueModel::Bool(false)),
    {
        matches!(self, MawuValue::Bool(false))
    }

    /// Whether the value is null.
    pub fn is_none(&self) -> (r: bool)
        ensures
            r == (self@ is Null),
    {
        matches!(self, MawuValue::Null)
    }

    /// Whether the value is empty: a container or string with no elements,
    /// a number equal to zero, or null; booleans are never empty.
    #[verifier::rlimit(30)]
    pub fn is_empty(&self) -> (r: bool)
        ensures
            r == model_is_empty(self@),
    {
        match self {
            MawuValue::CSVObject(rows) => {
                proof {
                    assert(self@ == ValueModel::CSVObject(entry_rows_model(*rows)));
                    crate::model::lemma_entry_rows_model_len(*rows);
                }
                rows.len() == 0
            },
            MawuValue::CSVArray(rows) => {
                proof {
                    assert(self@ == ValueModel::CSVArray(rows_model(*rows)));
                    crate::model::lemma_rows_model_len(*rows);
                }
                rows.len() == 0
            },
            MawuValue::Object(entries) => {
                proof {
                    assert(self@ == ValueModel::Object(entries_model(*entries)));
                    crate::model::lemma_entries_model_len(*entries);
                }
                entries.len() == 0
            },
            MawuValue::Array(items) => {
                proof {
                    assert(self@ == ValueModel::Array(row_model(*items)));
                    crate::model::lemma_row_model_len(*items);
                }
                items.len() == 0
            },
            MawuValue::Text(s) => s.as_str().unicode_len() == 0,
            MawuValue::Uint(v) => *v == 0,
            MawuValue::Int(v) => *v == 0,
            MawuValue::Float(b) => crate::numbers::float_zero(*b),
            MawuValue::Bool(_) => false,
            MawuValue::Null => true,
        }
    }

    /// Whether a numeric value is negative: `Some(true)` for a number below
    /// zero, `Some(false)` for any other number, `None` for non-numbers.
    pub fn is_negative(&self) -> (r: Option<bool>)
        ensures
            r == match self@ {
                ValueModel::Uint(_) => Some(false),
                ValueModel::Int(v) => Some(v < 0),
                ValueModel::Float(b) => Some(crate::numbers::float_below_zero(b)),
                _ => Option::<bool>::None,
            },
    {
        match self {
            MawuValue::Uint(_) => Some(false),
            MawuValue::Int(v) => Some(*v < 0),
            MawuValue::Float(b) => Some(crate::numbers::float_negative(*b)),
            _ => None,
        }
    }

    /// Whether a numeric value is positive: the negation of `is_negative`,
    /// so zero counts as positive.
    pub fn is_positive(&self) -> (r: Option<bool>)
        ensures
            r == match self@ {
                ValueModel::Uint(_) => Some(true),
                ValueModel::Int(v) => Some(v >= 0),
                ValueModel::Float(b) => Some(!crate::numbers::float_below_zero(b)),
                _ => Option::<bool>::None,
            },
    {
        match self.is_negative() {
            Some(neg) => Some(!neg),
            None => None,
        }
    }

    /// Borrows the records of a headed CSV table, or nothing on any other
    /// variant.
    pub fn as_csv_object(&self) -> (r: Option<&Vec<Vec<(String, MawuValue)>>>)
        ensures
            match r {
                Some(rows) => self@ == ValueModel::CSVObject(entry_rows_model(*rows)),
                None => !(self@ is CSVObject),
            },
    {
        match self {
            MawuValue::CSVObject(rows) => Some(rows),
            _ => None,
        }
    }

    /// Borrows the rows of a headless CSV table, or nothing on any other
    /// variant.
    pub fn as_csv_array(&self) -> (r: Option<&Vec<Vec<MawuValue>>>)
        ensures
            match r {
                Some(rows) => self@ == ValueModel::CSVArray(rows_model(*rows)),
                None => !(self@ is CSVArray),
            },
    {
        match self {
            MawuValue::CSVArray(rows) => Some(rows),
            _ => None,
        }
    }

    /// Borrows the entries of an object, or nothing on any other variant.
    pub fn as_object(&self) -> (r: Option<&Vec<(String, MawuValue)>>)
        ensures
            match r {
                Some(entries) => self@ == ValueModel::Object(entries_model(*entries)),
                None => !(self@ is Object),
            },
    {
        match self {
            MawuValue::Object(entries) => Some(entries),
            _ => None,
        }
    }

    /// Borrows the elements of an array, or nothing on any other variant.
    pub fn as_array(&self) -> (r: Option<&Vec<MawuValue>>)
        ensures
            match r {
                Some(items) => self@ == ValueModel::Array(row_model(*items)),
                None => !(self@ is Array),
            },
    {
        match self {
            MawuValue::Array(items) => Some(items),
            _ => None,
        }
    }

    /// Borrows the string, or nothing on any other variant.
    pub fn as_string(&self) -> (r: Option<&String>)
        ensures
            match r {
                Some(s) => self@ == ValueModel::Text(s@),
                None => !(self@ is Text),
            },
    {
        match self {
            MawuValue::Text(s) => Some(s),
            _ => None,
        }
    }

    /// Borrows the string as a slice, or nothing on any other variant.
    pub fn as_str(&self) -> (r: Option<&str>)
        ensures
            match r {
                Some(s) => self@ == ValueModel::Text(s@),
                None => !(self@ is Text),
            },
    {
        match self {
            MawuValue::Text(s) => Some(s.as_str()),
            _ => None,
        }
    }

    /// Borrows the unsigned integer, or nothing on any other variant.
    pub fn as_uint(&self) -> (r: Option<&u64>)
        ensures
            match r {
                Some(v) => self@ == ValueModel::Uint(*v),
                None => !(self@ is Uint),
            },
    {
        match self {
            MawuValue::Uint(v) => Some(v),
            _ => None,
        }
    }

    /// Borrows the signed integer, or nothing on any other variant.
    pub fn as_int(&self) -> (r: Option<&i64>)
        ensures
            match r {
                Some(v) => self@ == ValueModel::Int(*v),
                None => !(self@ is Int),
            },
    {
        match self {
            MawuValue::Int(v) => Some(v),
            _ => None,
        }
    }

    /// Borrows the float's IEEE-754 bit pattern, or nothing on any other
    /// variant.
    pub fn as_float(&self) -> (r: Option<&u64>)
        ensures
            match r {
                Some(b) => self@ == ValueModel::Float(*b),
                None => !(self@ is Float),
            },
    {
        match self {
            MawuValue::Float(b) => Some(b),
            _ => None,
        }
    }

    /// Borrows the boolean, or nothing on any other variant.
    pub fn as_bool(&self) -> (r: Option<&bool>)
        ensures
            match r {
                Some(b) => self@ == ValueModel::Bool(*b),
                None => !(self@ is Bool),
            },
    {
        match self {
            MawuValue::Bool(b) => Some(b),
            _ => None,
        }
    }

    /// Nothing for the null value, and `Some(())` for everything else.
    pub fn as_none(&self) -> (r: Option<()>)
        ensures
            r is Some <==> !(self@ is Null),
    {
        match self {
            MawuValue::Null => None,
            _ => Some(()),
        }
    }

    /// An owned copy of a headed CSV table's records, or nothing on any
    /// other variant.
    pub fn to_csv_object(&self) -> (r: Option<Vec<Vec<(String, MawuValue)>>>)
        ensures
            match r {
                Some(rows) => self@ == ValueModel::CSVObject(entry_rows_model(rows)),
                None => !(self@ is CSVObject),
            },
    {
        match self {
            MawuValue::CSVObject(rows) => Some(clone_entry_rows(rows)),
            _ => None,
        }
    }

    /// An owned copy of a headless CSV table's rows, or nothing on any
    /// other variant.
    pub fn to_csv_array(&self) -> (r: Option<Vec<Vec<MawuValue>>>)
        ensures
            match r {
                Some(rows) => self@ == ValueModel::CSVArray(rows_model(rows)),
                None => !(self@ is CSVArray),
            },
    {
        match self {
            MawuValue::CSVArray(rows) => Some(clone_rows(rows)),
            _ => None,
        }
    }

    /// An owned copy of an object's entries, or nothing on any other
    /// variant.
    pub fn to_object(&self) -> (r: Option<Vec<(String, MawuValue)>>)
        ensures
            match r {
                Some(entries) => self@ == ValueModel::Object(entries_model(entries)),
                None => !(self@ is Object),
            },
    {
        match self {
            MawuValue::Object(entries) => Some(clone_entries(entries)),
            _ => None,
        }
    }

    /// An owned copy of the value as an element list: an array's own
    /// elements, and any other value as the sole element of a fresh list.
    pub fn to_array(&self) -> (r: Vec<MawuValue>)
        ensures
            row_model(r) == match self@ {
                ValueModel::Array(items) => items,
                _ => seq![self@],
            },
    {
        match self {
            MawuValue::Array(items) => items.clone(),
            _ => {
                let mut out: Vec<MawuValue> = Vec::new();
                out.push(self.clone());
                proof {
                    crate::model::lemma_row_model_len(out);
                    crate::model::lemma_row_model_index(out, 0);
                    assert(row_model(out) =~= seq![self@]);
                }
                out
            },
        }
    }

    /// An owned copy of the value as an unsigned integer: an unsigned value
    /// itself, a strictly positive signed value, or a normal float whose
    /// display text reads back as an unsigned integer.
    pub fn to_uint(&self) -> (r: Option<u64>)
        ensures
            r == model_to_uint(self@),
    {
        match self {
            MawuValue::Uint(v) => Some(*v),
            MawuValue::Int(v) => {
                if *v > 0 {
                    Some(*v as u64)
                } else {
                    None
                }
            },
            MawuValue::Float(b) => {
                if crate::numbers::float_normal(*b) {
                    let text = crate::convert::float_display(*b);
                    let chars = chars_of(text.as_str());
                    parse_u64_text(&chars)
                } else {
                    None
                }
            },
            _ => None,
        }
    }

    /// An owned copy of the value as a pointer-sized unsigned integer.
    pub fn to_usize(&self) -> (r: Option<usize>)
        ensures
            r == match model_to_uint(self@) {
                Some(v) => if v <= usize::MAX as u64 {
                    Some(v as usize)
                } else {
                    Option::<usize>::None
                },
                None => Option::<usize>::None,
            },
    {
        match self.to_uint() {
            Some(v) => {
                if v <= usize::MAX as u64 {
                    Some(v as usize)
                } else {
                    None
                }
            },
            None => None,
        }
    }

    /// An owned copy of the value as a signed integer.
    pub fn to_int(&self) -> (r: Option<i64>)
        ensures
            r == model_to_int(self@),
    {
        match self {
            MawuValue::Int(v) => Some(*v),
            MawuValue::Uint(v) => {
                if *v <= i64::MAX as u64 {
                    Some(*v as i64)
                } else {
                    None
                }
            },
            MawuValue::Float(b) => {
                if crate::numbers::float_normal(*b) {
                    let text = crate::convert::float_display(*b);
                    let chars = chars_of(text.as_str());
                    parse_i64_text(&chars)
                } else {
                    None
                }
            },
            _ => None,
        }
    }

    /// An owned copy of the value as a pointer-sized signed integer.
    pub fn to_isize(&self) -> (r: Option<isize>)
        ensures
            r == match model_to_int(self@) {
                Some(v) => if isize::MIN as i64 <= v <= isize::MAX as i64 {
                    Some(v as isize)
                } else {
                    Option::<isize>::None
                },
                None => Option::<isize>::None,
            },
    {
        match self.to_int() {
            Some(v) => {
                if isize::MIN as i64 <= v && v <= isize::MAX as i64 {
                    Some(v as isize)
                } else {
                    None
                }
            },
            None => None,
        }
    }

    /// An owned copy of the value as a float bit pattern: the float itself,
    /// or an integer reread through the host's float parser.
    pub fn to_float(&self) -> (r: Option<u64>)
        ensures
            r == model_to_float(self@),
    {
        match self {
            MawuValue::Float(b) => Some(*b),
            MawuValue::Int(v) => {
                let text = crate::numbers::i64_text(*v);
                let s = string_from_chars(&text);
                parse_float_bits(s.as_str())
            },
            MawuValue::Uint(v) => {
                let digits = crate::numbers::u64_digits(*v);
                let s = string_from_chars(&digits);
                parse_float_bits(s.as_str())
            },
            _ => None,
        }
    }

    /// An owned copy of the value as a boolean: a boolean itself, or text
    /// spelling one of the two boolean literals.
    pub fn to_bool(&self) -> (r: Option<bool>)
        ensures
            r == model_to_bool(self@),
    {
        match self {
            MawuValue::Bool(b) => Some(*b),
            MawuValue::Text(s) => {
                if s.eq(&String::from_str("true")) {
                    Some(true)
                } else if s.eq(&String::from_str("false")) {
                    Some(false)
                } else {
                    None
                }
            },
            _ => None,
        }
    }

    /// Nothing for the null value, and `Some(())` for everything else.
    pub fn to_none(&self) -> (r: Option<()>)
        ensures
            r is Some <==> !(self@ is Null),
    {
        match self {
            MawuValue::Null => None,
            _ => Some(()),
        }
    }

    /// Clears the value: containers keep their variant and lose their
    /// elements, everything else becomes null.
    pub fn clear(&mut self)
        ensures
            final(self)@ == model_cleared(old(self)@),
    {
        match self {
            MawuValue::CSVObject(rows) => {
                rows.clear();
                proof {
                    crate::model::lemma_entry_rows_model_len(*rows);
                    assert(entry_rows_model(*rows) =~= Seq::<Seq<(Seq<char>, ValueModel)>>::empty());
                }
            },
            MawuValue::CSVArray(rows) => {
                rows.clear();
                proof {
                    crate::model::lemma_rows_model_len(*rows);
                    assert(rows_model(*rows) =~= Seq::<Seq<ValueModel>>::empty());
                }
            },
            MawuValue::Object(entries) => {
                entries.clear();
                proof {
                    crate::model::lemma_entries_model_len(*entries);
                    assert(entries_model(*entries) =~= Seq::<(Seq<char>, ValueModel)>::empty());
                }
            },
            MawuValue::Array(items) => {
                items.clear();
                proof {
                    crate::model::lemma_row_model_len(*items);
                    assert(row_model(*items) =~= Seq::<ValueModel>::empty());
                }
            },
            _ => {
                *self = MawuValue::Null;
            },
        }
    }

    /// The length of the value: element count for containers, character
    /// count for strings, zero for everything else.
    pub fn len(&self) -> (r: usize)
        ensures
            r == model_len(self@),
    {
        match self {
            MawuValue::CSVObject(rows) => {
                proof {
                    crate::model::lemma_entry_rows_model_len(*rows);
                    assert(self@ == ValueModel::CSVObject(entry_rows_model(*rows)));
                }
                rows.len()
            },
            MawuValue::CSVArray(rows) => {
                proof {
                    crate::model::lemma_rows_model_len(*rows);
                    assert(self@ == ValueModel::CSVArray(rows_model(*rows)));
                }
                rows.len()
            },
            MawuValue::Object(entries) => {
                proof {
                    crate::model::lemma_entries_model_len(*entries);
                    assert(self@ == ValueModel::Object(entries_model(*entries)));
                }
                entries.len()
            },
            MawuValue::Array(items) => {
                proof {
                    crate::model::lemma_row_model_len(*items);
                    assert(self@ == ValueModel::Array(row_model(*items)));
                }
                items.len()
            },
            MawuValue::Text(s) => s.as_str().unicode_len(),
            _ => 0,
        }
    }
}

impl MawuValue {
    /// Borrows the value under a key of an object, or nothing where the
    /// value is no object or the key is absent.
    pub fn get(&self, key: &str) -> (r: Option<&MawuValue>)
        ensures
            match r {
                Some(v) => self@ is Object && entries_get(self@->Object_0, key@) == Some(v@),
                None => !(self@ is Object) || entries_get(self@->Object_0, key@) is None,
            },
    {
        match self {
            MawuValue::Object(entries) => {
                proof {
                    assert(self@ == ValueModel::Object(entries_model(*entries)));
                    crate::model::lemma_entries_model_len(*entries);
                }
                let ghost em = entries_model(*entries);
                let mut i: usize = 0;
                while i < entries.len()
                    invariant
                        i <= entries@.len(),
                        em == entries_model(*entries),
                        em.len() == entries@.len(),
                        self@ == ValueModel::Object(em),
                        forall|j: int| 0 <= j < i ==> (#[trigger] em[j]).0 != key@,
                    decreases entries@.len() - i,
                {
                    proof {
                        crate::model::lemma_entries_model_index(*entries, i as int);
                    }
                    if crate::utils::str_eq(entries[i].0.as_str(), key) {
                        proof {
                            lemma_entries_find(em, key@);
                            assert(entries_find(em, key@) == i);
                        }
                        return Some(&entries[i].1);
                    }
                    i = i + 1;
                }
                proof {
                    assert(self@ == ValueModel::Object(em));
                }
                proof {
                    lemma_entries_find(em, key@);
                }
                None
            },
            _ => None,
        }
    }

    /// Whether an object holds the given key; false on any other variant.
    pub fn has_key(&self, key: &str) -> (r: bool)
        ensures
            r == (self@ is Object && entries_has_key(self@->Object_0, key@)),
    {
        match self.get(key) {
            Some(_) => true,
            None => false,
        }
    }

    /// Writes a key of an object: an existing key's value is replaced and
    /// handed back, a fresh key is appended and nothing is handed back. On
    /// any other variant the value itself is handed back unchanged.
    pub fn object_insert(&mut self, key: String, value: MawuValue) -> (r: Option<MawuValue>)
        ensures
            old(self)@ is Object ==> {
                &&& final(self)@ == ValueModel::Object(
                    entries_put(old(self)@->Object_0, key@, value@),
                )
                &&& match r {
                    Some(v) => entries_get(old(self)@->Object_0, key@) == Some(v@),
                    None => entries_get(old(self)@->Object_0, key@) is None,
                }
            },
            !(old(self)@ is Object) ==> {
                &&& final(self)@ == old(self)@
                &&& r matches Some(v) && v@ == value@
            },
    {
        let mut tmp = MawuValue::Null;
        core::mem::swap(self, &mut tmp);
        match tmp {
            MawuValue::Object(mut entries) => {
                proof {
                    assert(old(self)@ == ValueModel::Object(entries_model(entries)));
                    crate::model::lemma_entries_model_len(entries);
                }
                let ghost em = entries_model(entries);
                let mut i: usize = 0;
                while i < entries.len()
                    invariant
                        i <= entries@.len(),
                        em == entries_model(entries),
                        em.len() == entries@.len(),
                        old(self)@ == ValueModel::Object(em),
                        forall|j: int| 0 <= j < i ==> (#[trigger] em[j]).0 != key@,
                    decreases entries@.len() - i,
                {
                    proof {
                        crate::model::lemma_entries_model_index(entries, i as int);
                    }
                    if crate::utils::str_eq(entries[i].0.as_str(), key.as_str()) {
                        proof {
                            lemma_entries_find(em, key@);
                            assert(entries_find(em, key@) == i);
                        }
                        let old_pair = entries.remove(i);
                        entries.insert(i, (key, value));
                        proof {
                            crate::model::lemma_entries_model_len(entries);
                            assert forall|j: int|
                                0 <= j < entries@.len() implies #[trigger] entries_model(
                                entries,
                            )[j] == entries_put(em, key@, value@)[j] by {
                                crate::model::lemma_entries_model_index(entries, j);
                            }
                            assert(entries_model(entries) =~= entries_put(em, key@, value@));
                        }
                        *self = MawuValue::Object(entries);
                        return Some(old_pair.1);
                    }
                    i = i + 1;
                }
                proof {
                    lemma_entries_find(em, key@);
                }
                entries.push((key, value));
                proof {
                    crate::model::lemma_entries_model_len(entries);
                    assert forall|j: int|
                        0 <= j < entries@.len() implies #[trigger] entries_model(entries)[j]
                        == entries_put(em, key@, value@)[j] by {
                        crate::model::lemma_entries_model_index(entries, j);
                    }
                    assert(entries_model(entries) =~= entries_put(em, key@, value@));
                }
                *self = MawuValue::Object(entries);
                None
            },
            other => {
                *self = other;
                Some(value)
            },
        }
    }

    /// Removes a key of an object and hands its value back; nothing leaves
    /// an object without the key or any other variant.
    pub fn object_remove(&mut self, key: &str) -> (r: Option<MawuValue>)
        ensures
            old(self)@ is Object ==> {
                &&& final(self)@ == ValueModel::Object(
                    entries_drop(old(self)@->Object_0, key@),
                )
                &&& match r {
                    Some(v) => entries_get(old(self)@->Object_0, key@) == Some(v@),
                    None => entries_get(old(self)@->Object_0, key@) is None,
                }
            },
            !(old(self)@ is Object) ==> final(self)@ == old(self)@ && r is None,
    {
        let mut tmp = MawuValue::Null;
        core::mem::swap(self, &mut tmp);
        match tmp {
            MawuValue::Object(mut entries) => {
                proof {
                    assert(old(self)@ == ValueModel::Object(entries_model(entries)));
                    crate::model::lemma_entries_model_len(entries);
                }
                let ghost em = entries_model(entries);
                let mut i: usize = 0;
                while i < entries.len()
                    invariant
                        i <= entries@.len(),
                        em == entries_model(entries),
                        em.len() == entries@.len(),
                        old(self)@ == ValueModel::Object(em),
                        forall|j: int| 0 <= j < i ==> (#[trigger] em[j]).0 != key@,
                    decreases entries@.len() - i,
                {
                    proof {
                        crate::model::lemma_entries_model_index(entries, i as int);
                    }
                    if crate::utils::str_eq(entries[i].0.as_str(), key) {
                        proof {
                            lemma_entries_find(em, key@);
                            assert(entries_find(em, key@) == i);
                        }
                        let old_pair = entries.remove(i);
                        proof {
                            crate::model::lemma_entries_model_len(entries);
                            assert forall|j: int|
                                0 <= j < entries@.len() implies #[trigger] entries_model(
                                entries,
                            )[j] == entries_drop(em, key@)[j] by {
                                crate::model::lemma_entries_model_index(entries, j);
                            }
                            assert(entries_model(entries) =~= entries_drop(em, key@));
                        }
                        *self = MawuValue::Object(entries);
                        return Some(old_pair.1);
                    }
                    i = i + 1;
                }
                proof {
                    lemma_entries_find(em, key@);
                }
                *self = MawuValue::Object(entries);
                None
            },
            other => {
                *self = other;
                None
            },
        }
    }

    /// Inserts a value at an index of an array, shifting what follows; any
    /// other variant stays as it is.
    pub fn array_insert(&mut self, index: usize, value: MawuValue)
        requires
            old(self)@ is Array ==> index <= old(self)@->Array_0.len(),
        ensures
            old(self)@ is Array ==> final(self)@ == ValueModel::Array(
                old(self)@->Array_0.insert(index as int, value@),
            ),
            !(old(self)@ is Array) ==> final(self)@ == old(self)@,
    {
        match self {
            MawuValue::Array(items) => {
                proof {
                    assert(old(self)@ == ValueModel::Array(row_model(*items)));
                    crate::model::lemma_row_model_len(*items);
                }
                let ghost im = row_model(*items);
                items.insert(index, value);
                proof {
                    crate::model::lemma_row_model_len(*items);
                    assert forall|j: int|
                        0 <= j < items@.len() implies #[trigger] row_model(*items)[j] == im.insert(
                        index as int,
                        value@,
                    )[j] by {
                        crate::model::lemma_row_model_index(*items, j);
                        if j < index {
                            crate::model::lemma_row_model_index(*items, j);
                        }
                    }
                    assert(row_model(*items) =~= im.insert(index as int, value@));
                }
            },
            _ => {},
        }
    }

    /// Removes the value at an index of an array and hands it back;
    /// nothing leaves any other variant.
    pub fn array_remove(&mut self, index: usize) -> (r: Option<MawuValue>)
        requires
            old(self)@ is Array ==> index < old(self)@->Array_0.len(),
        ensures
            old(self)@ is Array ==> {
                &&& final(self)@ == ValueModel::Array(
                    old(self)@->Array_0.remove(index as int),
                )
                &&& r matches Some(v) && v@ == old(self)@->Array_0[index as int]
            },
            !(old(self)@ is Array) ==> final(self)@ == old(self)@ && r is None,
    {
        match self {
            MawuValue::Array(items) => {
                proof {
                    assert(old(self)@ == ValueModel::Array(row_model(*items)));
                    crate::model::lemma_row_model_len(*items);
                    crate::model::lemma_row_model_index(*items, index as int);
                }
                let ghost im = row_model(*items);
                let v = items.remove(index);
                proof {
                    crate::model::lemma_row_model_len(*items);
                    assert forall|j: int|
                        0 <= j < items@.len() implies #[trigger] row_model(*items)[j] == im.remove(
                        index as int,
                    )[j] by {
                        crate::model::lemma_row_model_index(*items, j);
                    }
                    assert(row_model(*items) =~= im.remove(index as int));
                }
                Some(v)
            },
            _ => None,
        }
    }

    /// Removes and hands back the last element of an array; nothing leaves
    /// an empty array or any other variant.
    pub fn pop(&mut self) -> (r: Option<MawuValue>)
        ensures
            old(self)@ is Array && old(self)@->Array_0.len() > 0 ==> {
                &&& final(self)@ == ValueModel::Array(old(self)@->Array_0.drop_last())
                &&& r matches Some(v) && v@ == old(self)@->Array_0.last()
            },
            old(self)@ is Array && old(self)@->Array_0.len() == 0 ==> final(self)@ == old(
                self,
            )@ && r is None,
            !(old(self)@ is Array) ==> final(self)@ == old(self)@ && r is None,
    {
        match self {
            MawuValue::Array(items) => {
                proof {
                    assert(old(self)@ == ValueModel::Array(row_model(*items)));
                    crate::model::lemma_row_model_len(*items);
                    if items@.len() > 0 {
                        crate::model::lemma_row_model_index(*items, items@.len() - 1);
                    }
                }
                let ghost im = row_model(*items);
                let r = items.pop();
                proof {
                    if im.len() > 0 {
                        crate::model::lemma_row_model_len(*items);
                        assert forall|j: int|
                            0 <= j < items@.len() implies #[trigger] row_model(*items)[j]
                            == im.drop_last()[j] by {
                            crate::model::lemma_row_model_index(*items, j);
                        }
                        assert(row_model(*items) =~= im.drop_last());
                    }
                }
                r
            },
            _ => None,
        }
    }

    /// Appends a value to an array; any other variant stays as it is.
    pub fn push(&mut self, value: MawuValue)
        ensures
            old(self)@ is Array ==> final(self)@ == ValueModel::Array(
                old(self)@->Array_0.push(value@),
            ),
            !(old(self)@ is Array) ==> final(self)@ == old(self)@,
    {
        match self {
            MawuValue::Array(items) => {
                proof {
                    assert(old(self)@ == ValueModel::Array(row_model(*items)));
                    crate::model::lemma_row_model_len(*items);
                }
                let ghost im = row_model(*items);
                items.push(value);
                proof {
                    crate::model::lemma_row_model_len(*items);
                    assert forall|j: int|
                        0 <= j < items@.len() implies #[trigger] row_model(*items)[j] == im.push(
                        value@,
                    )[j] by {
                        crate::model::lemma_row_model_index(*items, j);
                    }
                    assert(row_model(*items) =~= im.push(value@));
                }
            },
            _ => {},
        }
    }

    /// Whether an array holds an element carrying the same data as the
    /// given value; false on any other variant.
    pub fn contains(&self, value: &MawuValue) -> (r: bool)
        ensures
            r == (self@ is Array && exists|i: int|
                0 <= i < self@->Array_0.len() && self@->Array_0[i] == value@),
    {
        match self {
            MawuValue::Array(items) => {
                proof {
                    assert(self@ == ValueModel::Array(row_model(*items)));
                    crate::model::lemma_row_model_len(*items);
                }
                let ghost im = row_model(*items);
                let mut i: usize = 0;
                while i < items.len()
                    invariant
                        i <= items@.len(),
                        im == row_model(*items),
                        im.len() == items@.len(),
                        self@ == ValueModel::Array(im),
                        forall|j: int| 0 <= j < i ==> #[trigger] im[j] != value@,
                    decreases items@.len() - i,
                {
                    proof {
                        crate::model::lemma_row_model_index(*items, i as int);
                    }
                    if items[i].value_eq(value) {
                        proof {
                            assert(self@->Array_0[i as int] == value@);
                        }
                        return true;
                    }
                    i = i + 1;
                }
                false
            },
            _ => false,
        }
    }
}

impl Default for MawuValue {
    /// The default value is null.
    fn default() -> (r: Self)
        ensures
            r@ == ValueModel::Null,
    {
        MawuValue::Null
    }
}

} // verus!

