use mawu::lexers::json_lexer::json_lexer;
use mawu::mawu_value::MawuValue;
use mawu::serializers::json_serializer::serialize_json;
use mawu::serializers::serialize;

use mawu::errors::JsonError;
use mawu::errors::JsonParseError;
use mawu::errors::JsonWriteError;
use mawu::errors::MawuError;
use mawu::errors::ValueKind;

fn chars(s: &str) -> Vec<char> {
    s.chars().collect()
}

fn parse(s: &str) -> Result<MawuValue, mawu::errors::MawuError> {
    json_lexer(chars(s))
}

fn float_value(f: f64) -> MawuValue {
    MawuValue::Float(f.to_bits())
}

#[test]
fn string_lexer() {
    let double_quotes = vec!['"', '\\', '"', '"'];
    let parsed_quotes = json_lexer(double_quotes);
    assert!(parsed_quotes.is_ok());
    assert!(parsed_quotes.unwrap() == MawuValue::Text("\"".to_string()));

    let unicode = vec![
        '"', '\\', 'u', '2', '6', '0', '3', '\\', 'u', '0', '0', '2', '6', '\\', 'u', '0', '0',
        'E', 'A', '\\', 'u', 'F', 'B', '2', '0', '"',
    ];
    let parsed_unicode = json_lexer(unicode);
    println!("{:?}", parsed_unicode);
    assert!(parsed_unicode.is_ok());
    assert!(
        parsed_unicode.unwrap() == MawuValue::Text("\u{2603}\u{0026}\u{00EA}\u{FB20}".to_string())
    );

    let backslash = vec!['"', '\\', '\\', '"'];
    let parsed_backslash = json_lexer(backslash);
    assert!(parsed_backslash.is_ok());
    assert!(parsed_backslash.unwrap() == MawuValue::Text("\\".to_string()));

    let slash = vec!['"', '\\', '/', '"'];
    let parsed_slash = json_lexer(slash);
    assert!(parsed_slash.is_ok());
    assert!(parsed_slash.unwrap() == MawuValue::Text("/".to_string()));

    let mut tmp = "\"backspace\"".to_string();
    tmp.insert_str(4, r"\b");
    let backspace: Vec<char> = tmp.chars().collect();
    let parsed_backspace = json_lexer(backspace);
    assert!(parsed_backspace.is_ok());
    assert!(parsed_backspace.unwrap().as_str().unwrap() == "bac\u{0008}kspace");

    let formfeed = vec!['"', '\\', 'f', 'f', '"'];
    let parsed_formfeed = json_lexer(formfeed);
    assert!(parsed_formfeed.is_ok());
    assert!(parsed_formfeed.unwrap() == MawuValue::Text("\u{000C}f".to_string()));

    let newline = vec!['"', '\\', 'n', 'n', '"'];
    let parsed_newline = json_lexer(newline);
    assert!(parsed_newline.is_ok());
    assert!(parsed_newline.unwrap() == MawuValue::Text("\nn".to_string()));

    let return_test = vec!['"', '\\', 'r', 'r', '"'];
    let parsed_return = json_lexer(return_test);
    assert!(parsed_return.is_ok());
    assert!(parsed_return.unwrap() == MawuValue::Text("\rr".to_string()));

    let tab = vec!['"', '\\', 't', ' ', 't', 'e', 's', 't', '"'];
    let parsed_tab = json_lexer(tab);
    assert!(parsed_tab.is_ok());
    assert!(parsed_tab.unwrap() == MawuValue::Text("\t test".to_string()));
}

#[test]
fn number_lexer() {
    let small_neg = vec!['-', '1', '2', '3'];
    let small_neg_res = json_lexer(small_neg).unwrap();
    assert_eq!(small_neg_res, MawuValue::from("-123"));
    let small_pos = vec!['1', '2', '3'];
    let small_pos_res = json_lexer(small_pos).unwrap();
    assert_eq!(small_pos_res, MawuValue::from("123"));

    let large_neg = vec!['-', '9', '8', '7', '6', '5', '4', '3', '2', '1'];
    let large_neg_res = json_lexer(large_neg).unwrap();
    assert_eq!(large_neg_res, MawuValue::from("-987654321"));
    let large_pos = vec!['9', '8', '7', '6', '5', '4', '3', '2', '1'];
    let large_pos_res = json_lexer(large_pos).unwrap();
    assert_eq!(large_pos_res, MawuValue::from("987654321"));

    let small_float = vec!['1', '.', '2', '3'];
    let easy_float_res = json_lexer(small_float).unwrap();
    assert_eq!(easy_float_res, MawuValue::from("1.23"));
    let small_neg_float = vec!['-', '1', '.', '2', '3'];
    let small_neg_float_res = json_lexer(small_neg_float).unwrap();
    assert_eq!(small_neg_float_res, MawuValue::from("-1.23"));

    let large_float = vec!['9', '.', '8', '7', '6', '5', '4', '3', '2', '1'];
    let large_float_res = json_lexer(large_float).unwrap();
    assert_eq!(large_float_res, MawuValue::from("9.87654321"));
    let large_neg_float = vec!['-', '9', '.', '8', '7', '6', '5', '4', '3', '2', '1'];
    let large_neg_float_res = json_lexer(large_neg_float).unwrap();
    assert_eq!(large_neg_float_res, MawuValue::from("-9.87654321"));

    let small_exp = vec!['1', '.', '2', '3', 'e', '+', '1', '2'];
    let small_exp_res = json_lexer(small_exp).unwrap();
    assert_eq!(small_exp_res, MawuValue::from("1230000000000.0"));
    let small_neg_exp = vec!['-', '1', '.', '2', '3', 'e', '+', '1', '2'];
    let small_neg_exp_res = json_lexer(small_neg_exp).unwrap();
    assert_eq!(small_neg_exp_res, MawuValue::from("-1230000000000.0"));

    let large_exp = vec!['9', '.', '8', '7', '6', '5', '4', '3', '2', '1', 'e', '+', '1', '2'];
    let large_exp_res = json_lexer(large_exp).unwrap();
    assert_eq!(large_exp_res, MawuValue::from("9876543210000.0"));
    let large_neg_exp = vec![
        '-', '9', '.', '8', '7', '6', '5', '4', '3', '2', '1', 'e', '+', '1', '2',
    ];
    let large_neg_exp_res = json_lexer(large_neg_exp).unwrap();
    assert_eq!(large_neg_exp_res, MawuValue::from("-9876543210000.0"));

    let neg_exp = vec!['1', '.', '2', '3', 'e', '-', '9'];
    let neg_exp_res = json_lexer(neg_exp).unwrap();
    assert_eq!(neg_exp_res, MawuValue::from("0.00000000123"));
    let neg_exp2 = vec!['-', '1', '.', '2', '3', 'e', '-', '1', '2'];
    let neg_exp2_res = json_lexer(neg_exp2).unwrap();
    assert_eq!(neg_exp2_res, MawuValue::from("-0.00000000000123"));

    let small_exp_float_no_plus_after_e = vec!['1', '.', '2', '3', 'e', '1', '2'];
    let small_exp_float_res = json_lexer(small_exp_float_no_plus_after_e).unwrap();
    assert_eq!(small_exp_float_res, MawuValue::from("1230000000000.0"));
    let small_neg_exp_float_no_plus_after_e = vec!['-', '1', '.', '2', '3', 'e', '1', '2'];
    let small_neg_exp_float_res = json_lexer(small_neg_exp_float_no_plus_after_e).unwrap();
    assert_eq!(small_neg_exp_float_res, MawuValue::from("-1230000000000.0"));
}

#[test]
fn empty_input_is_null() {
    assert_eq!(parse("").unwrap(), MawuValue::Null);
}

#[test]
fn simple_values() {
    assert_eq!(parse("null").unwrap(), MawuValue::Null);
    assert_eq!(parse("true").unwrap(), MawuValue::Bool(true));
    assert_eq!(parse("false").unwrap(), MawuValue::Bool(false));
    assert_eq!(parse("42").unwrap(), MawuValue::Uint(42));
    assert_eq!(parse("-42").unwrap(), MawuValue::Int(-42));
    assert_eq!(parse("1.5").unwrap(), float_value(1.5));
    assert_eq!(parse(" \t\r\n 7 ").unwrap(), MawuValue::Uint(7));
    assert_eq!(
        parse("\"Hello world!\"").unwrap(),
        MawuValue::Text("Hello world!".to_string())
    );
}

#[test]
fn composite_values() {
    let v = parse("{\"a\": [1, -2, 3.5, true, null], \"b\": {\"c\": \"d\"}}").unwrap();
    assert!(v.is_object());
    let a = v.get("a").unwrap();
    assert!(a.is_array());
    let items = a.as_array().unwrap();
    assert_eq!(items.len(), 5);
    assert_eq!(items[0], MawuValue::Uint(1));
    assert_eq!(items[1], MawuValue::Int(-2));
    assert_eq!(items[2], float_value(3.5));
    assert_eq!(items[3], MawuValue::Bool(true));
    assert_eq!(items[4], MawuValue::Null);
    let b = v.get("b").unwrap();
    assert_eq!(b.get("c").unwrap(), &MawuValue::Text("d".to_string()));
    assert_eq!(v.len(), 2);
}

#[test]
fn duplicate_key_overwrites() {
    let v = parse("{\"a\":1,\"a\":2}").unwrap();
    assert!(v.is_object());
    assert_eq!(v.len(), 1);
    assert_eq!(v.get("a").unwrap(), &MawuValue::Uint(2));
}

#[test]
fn surrogate_pairs() {
    let v = parse("\"\\uD83D\\uDE00\"").unwrap();
    assert_eq!(v, MawuValue::Text("\u{1F600}".to_string()));
    assert_eq!(v.len(), 1);

    let lone_high = parse("\"\\uD83D\"");
    assert!(lone_high.is_err());
    let lone_low = parse("\"\\uDE00\"");
    assert!(lone_low.is_err());
}

#[test]
fn rejected_inputs() {
    assert!(matches!(
        parse("NaN"),
        Err(MawuError::JsonError(JsonError::ParseError(JsonParseError::InvalidNumber(_))))
    ));
    assert!(matches!(
        parse("Infinity"),
        Err(MawuError::JsonError(JsonError::ParseError(JsonParseError::InvalidNumber(_))))
    ));
    assert!(matches!(
        parse(","),
        Err(MawuError::JsonError(JsonError::ParseError(
            JsonParseError::InvalidStructuralToken(',')
        )))
    ));
    assert!(matches!(
        parse("@"),
        Err(MawuError::JsonError(JsonError::ParseError(JsonParseError::InvalidCharacter('@'))))
    ));
    assert!(matches!(
        parse("["),
        Err(MawuError::JsonError(JsonError::ParseError(JsonParseError::UnexpectedEndOfFile)))
    ));
    assert!(matches!(
        parse("{"),
        Err(MawuError::JsonError(JsonError::ParseError(JsonParseError::ExpectedEndOfObject)))
    ));
    assert!(matches!(
        parse("{\"a\" 1}"),
        Err(MawuError::JsonError(JsonError::ParseError(JsonParseError::ExpectedColon)))
    ));
    assert!(matches!(
        parse("{1: 2}"),
        Err(MawuError::JsonError(JsonError::ParseError(JsonParseError::ExpectedKey)))
    ));
    assert!(matches!(
        parse("\"ab"),
        Err(MawuError::JsonError(JsonError::ParseError(JsonParseError::UnterminatedQuote)))
    ));
    assert!(matches!(
        parse("\"a\\qb\""),
        Err(MawuError::JsonError(JsonError::ParseError(
            JsonParseError::InvalidEscapeSequence('q')
        )))
    ));
    assert!(matches!(
        parse("\"a\nb\""),
        Err(MawuError::JsonError(JsonError::ParseError(
            JsonParseError::UnescapedCharacter('\n')
        )))
    ));
    assert!(matches!(
        parse("\"a\\uZZZZ\""),
        Err(MawuError::JsonError(JsonError::ParseError(
            JsonParseError::InvalidEscapeSequence('u')
        )))
    ));
}

#[test]
fn serializer_compact() {
    let v = MawuValue::Object(vec![
        ("a".to_string(), MawuValue::Uint(1)),
        (
            "b".to_string(),
            MawuValue::Array(vec![MawuValue::Null, MawuValue::Bool(true)]),
        ),
    ]);
    let text = serialize_json(v, 0, 0).unwrap();
    assert_eq!(text, "{\"a\":1,\"b\":[null,true]}");

    // a float with a zero fractional part keeps an explicit `.0` suffix
    let f = serialize_json(float_value(5.0), 0, 0).unwrap();
    assert_eq!(f, "5.0");
    let g = serialize_json(float_value(1.25), 0, 0).unwrap();
    assert_eq!(g, "1.25");

    // string output re-escapes what the parser needs escaped
    let s = serialize_json(
        MawuValue::Text("a\"b\\c/d\ne\rf\tg".to_string()),
        0,
        0,
    )
    .unwrap();
    assert_eq!(s, "\"a\\\"b\\\\c\\/d\\ne\\rf\\tg\"");
}

#[test]
fn serializer_refuses_csv_values() {
    let table = MawuValue::CSVArray(vec![vec![MawuValue::Uint(1)]]);
    assert!(matches!(
        serialize_json(table, 0, 0),
        Err(MawuError::JsonError(JsonError::WriteError(JsonWriteError::NotJSONType(
            ValueKind::CSVArray
        ))))
    ));
    let nested = MawuValue::Array(vec![MawuValue::CSVObject(vec![])]);
    assert!(matches!(
        serialize_json(nested, 0, 0),
        Err(MawuError::JsonError(JsonError::WriteError(JsonWriteError::NotJSONType(
            ValueKind::CSVObject
        ))))
    ));
}

#[test]
fn round_trip_json() {
    let v = MawuValue::Object(vec![
        ("name".to_string(), MawuValue::Text("He said \"hi\"\n".to_string())),
        ("count".to_string(), MawuValue::Uint(42)),
        ("delta".to_string(), MawuValue::Int(-7)),
        ("ratio".to_string(), float_value(2.5)),
        ("flag".to_string(), MawuValue::Bool(false)),
        ("gap".to_string(), MawuValue::Null),
        (
            "list".to_string(),
            MawuValue::Array(vec![MawuValue::Uint(1), MawuValue::Text("two".to_string())]),
        ),
    ]);
    // compact
    let text = serialize_json(v.clone(), 0, 0).unwrap();
    let back = json_lexer(text.chars().collect()).unwrap();
    assert_eq!(back, v);
    // pretty, several widths
    for spaces in [1u8, 2, 4] {
        let pretty = serialize_json(v.clone(), spaces, 0).unwrap();
        let back = json_lexer(pretty.chars().collect()).unwrap();
        assert_eq!(back, v);
    }
}

#[test]
fn parse_twice_is_identical() {
    let text = serialize_json(
        MawuValue::Array(vec![MawuValue::Uint(1), float_value(0.5)]),
        0,
        0,
    )
    .unwrap();
    let once = json_lexer(text.chars().collect()).unwrap();
    let twice = json_lexer(text.chars().collect()).unwrap();
    assert_eq!(once, twice);
}

#[test]
fn serialize_dispatches_by_variant() {
    let json_value = MawuValue::Array(vec![MawuValue::Uint(1)]);
    assert_eq!(serialize(json_value, 0).unwrap(), "[1]");
    let table = MawuValue::CSVArray(vec![vec![MawuValue::Uint(1), MawuValue::Uint(2)]]);
    assert_eq!(serialize(table, 0).unwrap(), "1,2\n");
}

#[test]
fn to_string_formats() {
    assert_eq!(MawuValue::Null.to_string(), "");
    assert_eq!(MawuValue::Uint(7).to_string(), "7");
    assert_eq!(MawuValue::Int(-7).to_string(), "-7");
    assert_eq!(float_value(1.5).to_string(), "1.5");
    assert_eq!(MawuValue::Bool(true).to_string(), "true");
    assert_eq!(MawuValue::Text("x".to_string()).to_string(), "x");
    assert_eq!(
        MawuValue::Array(vec![MawuValue::Uint(1), MawuValue::Null]).to_string(),
        "[1,null]"
    );
}

#[test]
fn deep_nesting() {
    let mut text = String::new();
    for _ in 0..500 {
        text.push('[');
    }
    text.push('1');
    for _ in 0..500 {
        text.push(']');
    }
    let mut v = json_lexer(text.chars().collect()).unwrap();
    let mut count = 0;
    while v.is_array() {
        v = v.as_array().unwrap()[0].clone();
        count += 1;
    }
    assert_eq!(count, 500);
    assert_eq!(v, MawuValue::Uint(1));
}
