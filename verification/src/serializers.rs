//! The two serializers: depth-first emission of text that the parsers of
//! this crate read back.

pub mod csv_serializer;
pub mod json_serializer;

use vstd::prelude::*;

use crate::errors::MawuError;
use crate::mawu_value::MawuValue;
use crate::mawu_value::ValueModel;

verus! {

/// What serializing a value in the format its variant calls for yields:
/// CSV text for the two table shapes, JSON text for everything else.
pub open spec fn spec_serialize(m: ValueModel, spaces: int) -> Result<Seq<char>, MawuError> {
    match m {
        ValueModel::CSVObject(_) => csv_serializer::spec_serialize_csv_headed(m, spaces),
        ValueModel::CSVArray(_) => csv_serializer::spec_serialize_csv_unheaded(m, spaces),
        _ => json_serializer::spec_serialize_json(m, spaces, 0),
    }
}

/// Serializes a value in the format its variant calls for: a headed table
/// as headed CSV, a headless table as headless CSV, everything else as
/// JSON at the given indent width.
pub fn serialize(value: MawuValue, spaces: u8) -> (r: Result<String, MawuError>)
    ensures
        match r {
            Ok(s) => spec_serialize(value@, spaces as int) == Ok::<Seq<char>, MawuError>(s@),
            Err(e) => spec_serialize(value@, spaces as int) == Err::<Seq<char>, MawuError>(e),
        },
{
    match &value {
        MawuValue::CSVObject(_) => csv_serializer::serialize_csv_headed(value, spaces),
        MawuValue::CSVArray(_) => csv_serializer::serialize_csv_unheaded(value, spaces),
        _ => json_serializer::serialize_json(value, spaces, 0),
    }
}

} // verus!
