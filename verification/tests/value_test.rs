use mawu::mawu_value::MawuValue;

fn float_value(f: f64) -> MawuValue {
    MawuValue::Float(f.to_bits())
}

#[test]
fn new_array_object() {
    let array = MawuValue::new_array();
    let object = MawuValue::new_object();
    let csv_array = MawuValue::new_csv_array();
    let csv_object = MawuValue::new_csv_object();
    assert_eq!(array, MawuValue::Array(vec![]));
    assert_eq!(object, MawuValue::Object(vec![]));
    assert_eq!(csv_array, MawuValue::CSVArray(vec![vec![]]));
    assert_eq!(csv_object, MawuValue::CSVObject(vec![vec![]]));
}

#[test]
fn from_hashmap() {
    let mawu_value = MawuValue::Object(vec![("key".to_string(), MawuValue::Uint(255))]);
    println!("{:?}", mawu_value);
    assert!(mawu_value.is_object());
}

#[test]
fn creating_csv_object() {
    let a_record = vec![("key1".to_string(), MawuValue::Uint(255))];
    let mawu_value = MawuValue::CSVObject(vec![a_record]);
    println!("{:?}", mawu_value);
    assert!(mawu_value.is_csv_object());
}

#[test]
fn creating_csv_array() {
    let mawu_value = MawuValue::CSVArray(vec![vec![MawuValue::Uint(255)]]);
    println!("{:?}", mawu_value);
    assert!(mawu_value.is_csv_array());
}

#[test]
fn general_as_all_types() {
    let num_uint = MawuValue::from("255");
    assert_eq!(num_uint.as_uint().unwrap(), &255);
    let num_int = MawuValue::from("-123");
    assert_eq!(num_int.as_int().unwrap(), &-123);
    let num_float = MawuValue::from("123.2");
    assert_eq!(f64::from_bits(*num_float.as_float().unwrap()), 123.2);
    let boolean = MawuValue::from("true");
    assert_eq!(boolean.as_bool().unwrap(), &true);
    let none = MawuValue::from("");
    assert!(none.as_none().is_none());

    let array = MawuValue::Array(vec![
        MawuValue::from("test"),
        MawuValue::from("test2"),
        MawuValue::from("test3"),
    ]);
    assert_eq!(array.as_array().unwrap()[2], MawuValue::from("test3"));
    let object = MawuValue::Object(vec![("test".to_string(), MawuValue::from("123"))]);
    assert_eq!(object.get("test").unwrap(), &MawuValue::from("123"));

    let string = MawuValue::from("test");
    assert_eq!(string.as_string().unwrap(), &"test");
    assert_eq!(string.as_str().unwrap(), "test");
}

#[test]
fn general_convenience_functions() {
    let num = MawuValue::from("123");
    assert!(num.is_number());
}

#[test]
fn convenience_boolean_methods() {
    let bool_true = MawuValue::Bool(true);
    assert!(bool_true.is_true());
    assert!(!bool_true.is_false());

    let bool_false = MawuValue::Bool(false);
    assert!(!bool_false.is_true());
    assert!(bool_false.is_false());

    let not_bool = MawuValue::from("test");
    assert!(!not_bool.is_true());
    assert!(!not_bool.is_false());
}

#[test]
fn to_primitive() {
    let mawu = MawuValue::from("test").to_string();
    assert_eq!(mawu, "test".to_string());
    let bool_true = MawuValue::from("true").to_bool().unwrap();
    assert_eq!(bool_true, true);
    let bool_false = MawuValue::from("false").to_bool().unwrap();
    assert_eq!(bool_false, false);
}

#[test]
fn as_primitive() {
    let tmp = MawuValue::from("test");
    let mawu_str = tmp.as_str().unwrap();
    assert_eq!(mawu_str, "test");
    let mawu = tmp.as_string().unwrap();
    assert_eq!(mawu, &"test".to_string());
}

#[test]
fn float_inf() {
    let float_inf = MawuValue::from("1.0e500000");
    assert!(float_inf.is_none());
}

#[test]
fn number_conversion() {
    let mawu_int = MawuValue::Int(-123);
    let mawu_uint = MawuValue::Uint(123);
    let mawu_float = float_value(123.123);
    let mawu_short_float = float_value(123.0);

    let mawu_int_u64 = mawu_int.to_uint();
    let mawu_uint_u64 = mawu_uint.to_uint();
    let mawu_float_u64 = mawu_float.to_uint();
    let mawu_short_float_u64 = mawu_short_float.to_uint();
    assert!(mawu_int_u64.is_none());
    assert!(mawu_uint_u64.unwrap() == 123);
    assert!(mawu_float_u64.is_none());
    assert!(mawu_short_float_u64.unwrap() == 123);

    let mawu_int_i64 = mawu_int.to_int();
    let mawu_uint_i64 = mawu_uint.to_int();
    let mawu_float_i64 = mawu_float.to_int();
    let mawu_short_float_i64 = mawu_short_float.to_int();
    assert!(mawu_int_i64.unwrap() == -123);
    assert!(mawu_uint_i64.unwrap() == 123);
    assert!(mawu_float_i64.is_none());
    assert!(mawu_short_float_i64.unwrap() == 123);

    let mawu_int_f64 = mawu_int.to_float();
    let mawu_uint_f64 = mawu_uint.to_float();
    let mawu_float_f64 = mawu_float.to_float();
    let mawu_short_float_f64 = mawu_short_float.to_float();
    assert!(f64::from_bits(mawu_int_f64.unwrap()) == -123.0);
    assert!(f64::from_bits(mawu_uint_f64.unwrap()) == 123.0);
    assert!(f64::from_bits(mawu_float_f64.unwrap()) == 123.123);
    assert!(f64::from_bits(mawu_short_float_f64.unwrap()) == 123.0);
}

#[test]
fn mawu_value_from_string() {
    let mawu_string_value = MawuValue::from("test");
    assert_eq!(mawu_string_value, MawuValue::Text("test".to_string()));
    assert_eq!(mawu_string_value.is_string(), true);
    assert_eq!(mawu_string_value.as_string(), Some(&"test".to_string()));

    let mawu_int_value = MawuValue::from("123");
    assert_eq!(mawu_int_value, MawuValue::Uint(123));
    assert_eq!(mawu_int_value.is_uint(), true);
    assert_eq!(mawu_int_value.as_uint(), Some(&123));

    let mawu_int_value = MawuValue::from("-123");
    assert_eq!(mawu_int_value, MawuValue::Int(-123));
    assert_eq!(mawu_int_value.is_int(), true);
    assert_eq!(mawu_int_value.as_int(), Some(&-123));

    let mawu_float_value = MawuValue::from("123.456");
    assert_eq!(mawu_float_value, float_value(123.456));
    assert_eq!(mawu_float_value.is_float(), true);
    assert_eq!(mawu_float_value.as_float(), Some(&(123.456f64).to_bits()));

    let mawu_bool_true_value = MawuValue::from("true");
    assert_eq!(mawu_bool_true_value, MawuValue::Bool(true));
    assert_eq!(mawu_bool_true_value.is_bool(), true);
    assert_eq!(mawu_bool_true_value.as_bool(), Some(&true));

    let mawu_bool_false_value = MawuValue::from("false");
    assert_eq!(mawu_bool_false_value, MawuValue::Bool(false));
    assert_eq!(mawu_bool_false_value.is_bool(), true);
    assert_eq!(mawu_bool_false_value.as_bool(), Some(&false));

    let mawu_null_value = MawuValue::from("");
    assert_eq!(mawu_null_value, MawuValue::Null);
    assert_eq!(mawu_null_value.is_none(), true);
    assert_eq!(mawu_null_value.as_none(), None);
}

#[test]
fn mawu_value_constructed() {
    let mawu_object_value = MawuValue::Object(vec![]);
    let mawu_array_value = MawuValue::Array(vec![]);
    let mawu_csv_object_value = MawuValue::CSVObject(vec![vec![]]);
    let mawu_csv_array_value = MawuValue::CSVArray(vec![vec![]]);

    assert_eq!(mawu_object_value.is_object(), true);
    assert_eq!(mawu_array_value.is_array(), true);
    assert_eq!(mawu_csv_object_value.is_csv_object(), true);
    assert_eq!(mawu_csv_array_value.is_csv_array(), true);

    assert_eq!(mawu_object_value.as_object(), Some(&vec![]));
    assert_eq!(mawu_array_value.as_array(), Some(&vec![]));
    assert_eq!(mawu_csv_object_value.as_csv_object(), Some(&vec![vec![]]));
    assert_eq!(mawu_csv_array_value.as_csv_array(), Some(&vec![vec![]]));
}

#[test]
fn test_convenience_boolean_methods() {
    let bool_true = MawuValue::Bool(true);
    assert!(bool_true.is_true());
    assert!(!bool_true.is_false());

    let bool_false = MawuValue::Bool(false);
    assert!(!bool_false.is_true());
    assert!(bool_false.is_false());

    let not_bool = MawuValue::from("test");
    assert!(!not_bool.is_true());
    assert!(!not_bool.is_false());
}

#[test]
fn test_to_primitive() {
    let mawu = MawuValue::from("test").to_string();
    assert_eq!(mawu, "test".to_string());
    let bool_true = MawuValue::from("true").to_bool().unwrap();
    assert_eq!(bool_true, true);
    let bool_false = MawuValue::from("false").to_bool().unwrap();
    assert_eq!(bool_false, false);
}

#[test]
fn test_as_primitive() {
    let tmp = MawuValue::from("test");
    let mawu_str = tmp.as_str().unwrap();
    assert_eq!(mawu_str, "test");
    let mawu = tmp.as_string().unwrap();
    assert_eq!(mawu, &"test".to_string());
}

#[test]
fn test_number_conversion() {
    let mawu_int = MawuValue::Int(-123);
    let mawu_uint = MawuValue::Uint(123);
    let mawu_float = float_value(123.123);
    let mawu_short_float = float_value(123.0);

    assert!(mawu_int.to_uint().is_none());
    assert!(mawu_uint.to_uint().unwrap() == 123);
    assert!(mawu_float.to_uint().is_none());
    assert!(mawu_short_float.to_uint().unwrap() == 123);

    assert!(mawu_int.to_int().unwrap() == -123);
    assert!(mawu_uint.to_int().unwrap() == 123);
    assert!(mawu_float.to_int().is_none());
    assert!(mawu_short_float.to_int().unwrap() == 123);

    assert!(f64::from_bits(mawu_int.to_float().unwrap()) == -123.0);
    assert!(f64::from_bits(mawu_uint.to_float().unwrap()) == 123.0);
    assert!(f64::from_bits(mawu_float.to_float().unwrap()) == 123.123);
    assert!(f64::from_bits(mawu_short_float.to_float().unwrap()) == 123.0);
}

#[test]
fn test_mawu_value_from_string() {
    let mawu_string_value = MawuValue::from("test");
    assert_eq!(mawu_string_value, MawuValue::Text("test".to_string()));
    assert_eq!(mawu_string_value.is_string(), true);
    assert_eq!(mawu_string_value.as_string(), Some(&"test".to_string()));

    let mawu_int_value = MawuValue::from("123");
    assert_eq!(mawu_int_value, MawuValue::Uint(123));
    let mawu_int_value = MawuValue::from("-123");
    assert_eq!(mawu_int_value, MawuValue::Int(-123));
    let mawu_float_value = MawuValue::from("123.456");
    assert_eq!(mawu_float_value, float_value(123.456));
    let mawu_bool_true_value = MawuValue::from("true");
    assert_eq!(mawu_bool_true_value, MawuValue::Bool(true));
    let mawu_bool_false_value = MawuValue::from("false");
    assert_eq!(mawu_bool_false_value, MawuValue::Bool(false));
    let mawu_null_value = MawuValue::from("");
    assert_eq!(mawu_null_value, MawuValue::Null);
}

#[test]
fn test_mawu_value_constructed() {
    let mawu_object_value = MawuValue::Object(vec![]);
    let mawu_array_value = MawuValue::Array(vec![]);
    let mawu_csv_object_value = MawuValue::CSVObject(vec![vec![]]);
    let mawu_csv_array_value = MawuValue::CSVArray(vec![vec![]]);

    assert_eq!(mawu_object_value.is_object(), true);
    assert_eq!(mawu_array_value.is_array(), true);
    assert_eq!(mawu_csv_object_value.is_csv_object(), true);
    assert_eq!(mawu_csv_array_value.is_csv_array(), true);
}

#[test]
fn numeric_selection_policy() {
    assert_eq!(MawuValue::from("123"), MawuValue::Uint(123));
    assert_eq!(MawuValue::from("+123"), MawuValue::Uint(123));
    assert_eq!(MawuValue::from("-123"), MawuValue::Int(-123));
    assert_eq!(MawuValue::from("1.5"), float_value(1.5));
    assert_eq!(MawuValue::from("18446744073709551615"), MawuValue::Uint(u64::MAX));
    assert_eq!(
        MawuValue::from("18446744073709551616"),
        float_value(18446744073709551616.0)
    );
    assert_eq!(
        MawuValue::from("-9223372036854775808"),
        MawuValue::Int(i64::MIN)
    );
    // overflow of the 64-bit float domain resolves to null
    assert_eq!(MawuValue::from("1e999"), MawuValue::Null);
    assert_eq!(MawuValue::from("-1e999"), MawuValue::Null);
    // underflow resolves to a zero with its sign kept
    assert_eq!(MawuValue::from("1e-999"), float_value(0.0));
    assert_eq!(MawuValue::from("-1e-999"), float_value(-0.0));
    assert_ne!(
        MawuValue::from("-1e-999"),
        float_value(0.0),
        "the signed zero keeps its sign bit"
    );
}

#[test]
fn object_operations() {
    let mut object = MawuValue::new_object();
    assert_eq!(object.object_insert("a".to_string(), MawuValue::Uint(1)), None);
    assert_eq!(object.object_insert("b".to_string(), MawuValue::Uint(2)), None);
    assert_eq!(object.get("a"), Some(&MawuValue::Uint(1)));
    assert!(object.has_key("b"));
    assert!(!object.has_key("c"));
    assert_eq!(object.len(), 2);
    // writing an existing key hands the old value back
    assert_eq!(
        object.object_insert("a".to_string(), MawuValue::Uint(3)),
        Some(MawuValue::Uint(1))
    );
    assert_eq!(object.get("a"), Some(&MawuValue::Uint(3)));
    assert_eq!(object.len(), 2);
    assert_eq!(object.object_remove("a"), Some(MawuValue::Uint(3)));
    assert_eq!(object.get("a"), None);
    assert_eq!(object.object_remove("zz"), None);
    object.clear();
    assert!(object.is_object());
    assert!(object.is_empty());
}

#[test]
fn array_operations() {
    let mut array = MawuValue::Array(vec![
        MawuValue::Uint(1),
        MawuValue::Uint(2),
        MawuValue::Uint(3),
    ]);
    array.array_insert(0, MawuValue::Uint(0));
    assert_eq!(
        array,
        MawuValue::Array(vec![
            MawuValue::Uint(0),
            MawuValue::Uint(1),
            MawuValue::Uint(2),
            MawuValue::Uint(3),
        ])
    );
    assert_eq!(array.array_remove(1), Some(MawuValue::Uint(1)));
    assert_eq!(array.pop(), Some(MawuValue::Uint(3)));
    array.push(MawuValue::Uint(9));
    assert!(array.contains(&MawuValue::Uint(9)));
    assert!(!array.contains(&MawuValue::Uint(4)));
    assert_eq!(array.len(), 3);
    let mut scalar = MawuValue::Int(-42);
    scalar.clear();
    assert!(scalar.is_none());
}

#[test]
fn emptiness_and_signs() {
    assert!(MawuValue::Null.is_empty());
    assert!(MawuValue::Uint(0).is_empty());
    assert!(MawuValue::Int(0).is_empty());
    assert!(float_value(0.0).is_empty());
    assert!(float_value(-0.0).is_empty());
    assert!(!MawuValue::Bool(false).is_empty());
    assert!(!MawuValue::Uint(1).is_empty());
    assert!(MawuValue::Text(String::new()).is_empty());

    assert_eq!(MawuValue::Uint(5).is_negative(), Some(false));
    assert_eq!(MawuValue::Int(-5).is_negative(), Some(true));
    assert_eq!(float_value(-0.5).is_negative(), Some(true));
    assert_eq!(float_value(-0.0).is_negative(), Some(false));
    assert_eq!(MawuValue::Text("x".to_string()).is_negative(), None);
    assert_eq!(MawuValue::Int(0).is_positive(), Some(true));
}

#[test]
fn to_array_and_to_usize() {
    let array = MawuValue::Array(vec![MawuValue::from("value")]);
    assert_eq!(array.to_array()[0], MawuValue::Text("value".to_string()));
    let scalar = MawuValue::from("value");
    assert_eq!(scalar.to_array()[0], MawuValue::Text("value".to_string()));
    assert_eq!(MawuValue::Uint(42).to_usize(), Some(42usize));
    assert_eq!(MawuValue::Int(-42).to_isize(), Some(-42isize));
    assert_eq!(MawuValue::Int(-1).to_usize(), None);
}
