//! The mathematical model of the value type: text as character sequences,
//! containers as sequences, and pointwise facts about those model sequences.

use vstd::prelude::*;

use crate::mawu_value::MawuValue;

verus! {

broadcast use
    vstd::seq::axiom_seq_index_decreases,
    vstd::std_specs::vec::axiom_vec_decreases_to_view,
    vstd::std_specs::vec::axiom_vec_index_decreases;

/// The mathematical model of a [`MawuValue`]: text as character sequences,
/// containers as sequences, objects as key/value entry sequences in storage
/// order.
pub enum ValueModel {
    /// One entry sequence per record of a headed CSV table.
    CSVObject(Seq<Seq<(Seq<char>, ValueModel)>>),
    /// One value sequence per row of a headless CSV table.
    CSVArray(Seq<Seq<ValueModel>>),
    /// The entries of a JSON object, keys unique.
    Object(Seq<(Seq<char>, ValueModel)>),
    /// The elements of a JSON array, in order.
    Array(Seq<ValueModel>),
    /// An unsigned 64-bit integer.
    Uint(u64),
    /// A signed 64-bit integer.
    Int(i64),
    /// The IEEE-754 bit pattern of a 64-bit float.
    Float(u64),
    /// A character sequence.
    Text(Seq<char>),
    /// A boolean.
    Bool(bool),
    /// The empty or null value.
    Null,
}

impl View for MawuValue {
    type V = ValueModel;

    open spec fn view(&self) -> ValueModel
        decreases self,
    {
        match self {
            MawuValue::CSVObject(rows) => ValueModel::CSVObject(entry_rows_model(*rows)),
            MawuValue::CSVArray(rows) => ValueModel::CSVArray(rows_model(*rows)),
            MawuValue::Object(entries) => ValueModel::Object(entries_model(*entries)),
            MawuValue::Array(items) => ValueModel::Array(row_model(*items)),
            MawuValue::Uint(v) => ValueModel::Uint(*v),
            MawuValue::Int(v) => ValueModel::Int(*v),
            MawuValue::Float(bits) => ValueModel::Float(*bits),
            MawuValue::Text(s) => ValueModel::Text(s@),
            MawuValue::Bool(b) => ValueModel::Bool(*b),
            MawuValue::Null => ValueModel::Null,
        }
    }
}

/// The model of one sequence of values.
pub open spec fn row_model(items: Vec<MawuValue>) -> Seq<ValueModel>
    decreases items,
{
    Seq::new(
        items@.len(),
        |i: int|
            if 0 <= i < items@.len() {
                items@[i]@
            } else {
                ValueModel::Null
            },
    )
}

/// The model of one sequence of key/value entries.
pub open spec fn entries_model(entries: Vec<(String, MawuValue)>) -> Seq<(Seq<char>, ValueModel)>
    decreases entries,
{
    Seq::new(
        entries@.len(),
        |i: int|
            if 0 <= i < entries@.len() {
                (entries@[i].0@, entries@[i].1@)
            } else {
                (Seq::<char>::empty(), ValueModel::Null)
            },
    )
}

/// The model of a sequence of value rows.
pub open spec fn rows_model(rows: Vec<Vec<MawuValue>>) -> Seq<Seq<ValueModel>>
    decreases rows,
{
    Seq::new(
        rows@.len(),
        |i: int|
            if 0 <= i < rows@.len() {
                row_model(rows@[i])
            } else {
                Seq::empty()
            },
    )
}

/// The model of a sequence of entry rows.
pub open spec fn entry_rows_model(rows: Vec<Vec<(String, MawuValue)>>) -> Seq<
    Seq<(Seq<char>, ValueModel)>,
>
    decreases rows,
{
    Seq::new(
        rows@.len(),
        |i: int|
            if 0 <= i < rows@.len() {
                entries_model(rows@[i])
            } else {
                Seq::empty()
            },
    )
}

/// The length of a row model is the row's length.
pub broadcast proof fn lemma_row_model_len(items: Vec<MawuValue>)
    ensures
        (#[trigger] row_model(items)).len() == items@.len(),
{
}

/// A row model holds the models of the row's values, in order.
pub broadcast proof fn lemma_row_model_index(items: Vec<MawuValue>, i: int)
    requires
        0 <= i < items@.len(),
    ensures
        (#[trigger] row_model(items)[i]) == items@[i]@,
{
}

/// The length of an entry-list model is the list's length.
pub broadcast proof fn lemma_entries_model_len(entries: Vec<(String, MawuValue)>)
    ensures
        (#[trigger] entries_model(entries)).len() == entries@.len(),
{
}

/// An entry-list model holds the key views and value models, in order.
pub broadcast proof fn lemma_entries_model_index(entries: Vec<(String, MawuValue)>, i: int)
    requires
        0 <= i < entries@.len(),
    ensures
        (#[trigger] entries_model(entries)[i]) == (entries@[i].0@, entries@[i].1@),
{
}

/// The length of a row-list model is the list's length.
pub broadcast proof fn lemma_rows_model_len(rows: Vec<Vec<MawuValue>>)
    ensures
        (#[trigger] rows_model(rows)).len() == rows@.len(),
{
}

/// A row-list model holds the models of the rows, in order.
pub broadcast proof fn lemma_rows_model_index(rows: Vec<Vec<MawuValue>>, i: int)
    requires
        0 <= i < rows@.len(),
    ensures
        (#[trigger] rows_model(rows)[i]) == row_model(rows@[i]),
{
}

/// The length of an entry-row-list model is the list's length.
pub broadcast proof fn lemma_entry_rows_model_len(rows: Vec<Vec<(String, MawuValue)>>)
    ensures
        (#[trigger] entry_rows_model(rows)).len() == rows@.len(),
{
}

/// An entry-row-list model holds the models of the records, in order.
pub broadcast proof fn lemma_entry_rows_model_index(rows: Vec<Vec<(String, MawuValue)>>, i: int)
    requires
        0 <= i < rows@.len(),
    ensures
        (#[trigger] entry_rows_model(rows)[i]) == entries_model(rows@[i]),
{
}

} // verus!
