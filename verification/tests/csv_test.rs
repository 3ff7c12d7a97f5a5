use mawu::lexers::csv_lexer::headed;
use mawu::lexers::csv_lexer::headless;
use mawu::mawu_value::MawuValue;
use mawu::serializers::csv_serializer::serialize_csv_headed;
use mawu::serializers::csv_serializer::serialize_csv_unheaded;

use mawu::errors::CsvError;
use mawu::errors::CsvParseError;
use mawu::errors::CsvWriteError;
use mawu::errors::MawuError;
use mawu::errors::ValueKind;
use mawu::utils::is_digit;
use mawu::utils::is_end_of_primitive_value;
use mawu::utils::is_json_string_terminator_token;
use mawu::utils::is_newline;
use mawu::utils::is_whitespace;
use mawu::utils::make_whitespace;
use mawu::utils::unescape_unicode;

fn chars(s: &str) -> Vec<char> {
    s.chars().collect()
}

fn record_get<'a>(rec: &'a [(String, MawuValue)], key: &str) -> Option<&'a MawuValue> {
    rec.iter().find(|(k, _)| k == key).map(|(_, v)| v)
}

#[test]
fn headed_basic() {
    let v = headed(chars("Id,Type,Content\n1,uint,0\n2,sint,-42\n")).unwrap();
    let rows = v.as_csv_object().unwrap();
    assert_eq!(rows.len(), 2);
    assert_eq!(record_get(&rows[0], "Id").unwrap(), &MawuValue::Uint(1));
    assert_eq!(
        record_get(&rows[0], "Type").unwrap(),
        &MawuValue::Text("uint".to_string())
    );
    assert_eq!(record_get(&rows[0], "Content").unwrap(), &MawuValue::Uint(0));
    assert_eq!(record_get(&rows[1], "Content").unwrap(), &MawuValue::Int(-42));
}

#[test]
fn headless_basic() {
    let v = headless(chars("1,uint,0\n2,bool,true\n")).unwrap();
    let rows = v.as_csv_array().unwrap();
    assert_eq!(rows.len(), 2);
    assert_eq!(rows[0][0], MawuValue::Uint(1));
    assert_eq!(rows[1][2], MawuValue::Bool(true));
}

#[test]
fn missing_value_padding_headed() {
    let v = headed(chars("A,B,C\na,b,\n")).unwrap();
    let rows = v.as_csv_object().unwrap();
    assert_eq!(rows.len(), 1);
    assert_eq!(
        record_get(&rows[0], "A").unwrap(),
        &MawuValue::Text("a".to_string())
    );
    assert_eq!(
        record_get(&rows[0], "B").unwrap(),
        &MawuValue::Text("b".to_string())
    );
    assert_eq!(record_get(&rows[0], "C").unwrap(), &MawuValue::Null);
}

#[test]
fn missing_value_padding_headless() {
    let v = headless(chars("x,y,z\na,b,\n")).unwrap();
    let rows = v.as_csv_array().unwrap();
    assert_eq!(rows.len(), 2);
    assert_eq!(rows[1].len(), 3);
    assert_eq!(rows[1][0], MawuValue::Text("a".to_string()));
    assert_eq!(rows[1][1], MawuValue::Text("b".to_string()));
    assert_eq!(rows[1][2], MawuValue::Null);
}

#[test]
fn extra_value_is_fatal_in_headed_mode() {
    let r = headed(chars("A,B\na,b,c\n"));
    assert!(matches!(
        r,
        Err(MawuError::CsvError(CsvError::ParseError(CsvParseError::ExtraValue(3))))
    ));
}

#[test]
fn quoting() {
    let v = headed(chars("A\n\"He said \"\"hi\"\"\"\n")).unwrap();
    let rows = v.as_csv_object().unwrap();
    assert_eq!(
        record_get(&rows[0], "A").unwrap(),
        &MawuValue::Text("He said \"hi\"".to_string())
    );

    // a stray unescaped quote inside an unquoted field is a parse error
    let bad = headed(chars("A\nhe\"llo\n"));
    assert!(matches!(
        bad,
        Err(MawuError::CsvError(CsvError::ParseError(
            CsvParseError::UnescapedDoubleQuote
        )))
    ));
}

#[test]
fn quoted_empty_is_text_not_null() {
    let v = headed(chars("A,B\n\"\",\n")).unwrap();
    let rows = v.as_csv_object().unwrap();
    assert_eq!(
        record_get(&rows[0], "A").unwrap(),
        &MawuValue::Text(String::new())
    );
    assert_eq!(record_get(&rows[0], "B").unwrap(), &MawuValue::Null);
}

#[test]
fn header_only_inputs() {
    // headed: a header line and no data rows yield zero records
    let v = headed(chars("A,B,C\n")).unwrap();
    assert_eq!(v.as_csv_object().unwrap().len(), 0);
    assert_eq!(v.len(), 0);
    // headless: the anchor row is itself a data row
    let v = headless(chars("A,B,C\n")).unwrap();
    assert_eq!(v.as_csv_array().unwrap().len(), 1);
}

#[test]
fn empty_input_is_rejected() {
    assert!(matches!(
        headed(chars("")),
        Err(MawuError::CsvError(CsvError::ParseError(
            CsvParseError::UnrecognizedHeader
        )))
    ));
    assert!(matches!(
        headless(chars("")),
        Err(MawuError::CsvError(CsvError::ParseError(
            CsvParseError::UnrecognizedHeader
        )))
    ));
}

#[test]
fn unterminated_quote_is_fatal() {
    assert!(matches!(
        headed(chars("A\n\"unfinished\n")),
        Err(MawuError::CsvError(CsvError::ParseError(
            CsvParseError::UnterminatedQuote
        )))
    ));
}

#[test]
fn record_separators() {
    for text in ["a,1\nb,2", "a,1\r\nb,2", "a,1\rb,2"] {
        let v = headless(chars(text)).unwrap();
        let rows = v.as_csv_array().unwrap();
        assert_eq!(rows.len(), 2, "separator in {:?}", text);
        assert_eq!(rows[1][1], MawuValue::Uint(2));
    }
}

#[test]
fn cell_type_inference() {
    let v = headless(chars("0,-1,1.5,true,false,,text\n")).unwrap();
    let row = &v.as_csv_array().unwrap()[0];
    assert_eq!(row[0], MawuValue::Uint(0));
    assert_eq!(row[1], MawuValue::Int(-1));
    assert_eq!(row[2], MawuValue::Float((1.5f64).to_bits()));
    assert_eq!(row[3], MawuValue::Bool(true));
    assert_eq!(row[4], MawuValue::Bool(false));
    assert_eq!(row[5], MawuValue::Null);
    assert_eq!(row[6], MawuValue::Text("text".to_string()));
}

#[test]
fn serialize_headless_and_back() {
    let table = MawuValue::CSVArray(vec![
        vec![
            MawuValue::Text("a".to_string()),
            MawuValue::Uint(1),
            MawuValue::Null,
        ],
        vec![MawuValue::Int(-1), MawuValue::Bool(true), MawuValue::Text("x,y".to_string())],
    ]);
    let text = serialize_csv_unheaded(table.clone(), 0).unwrap();
    assert_eq!(text, "\"a\",1,\n-1,true,\"x,y\"\n");
    let back = headless(text.chars().collect()).unwrap();
    assert_eq!(back, table);
}

#[test]
fn serialize_headed_and_back() {
    let table = MawuValue::CSVObject(vec![
        vec![
            ("key1".to_string(), MawuValue::Text("value1".to_string())),
            ("key2".to_string(), MawuValue::Uint(2)),
        ],
        vec![
            ("key1".to_string(), MawuValue::Text("value2".to_string())),
            ("key2".to_string(), MawuValue::Uint(3)),
        ],
    ]);
    let text = serialize_csv_headed(table.clone(), 0).unwrap();
    assert_eq!(text, "key1,key2\n\"value1\",2\n\"value2\",3");
    let back = headed(text.chars().collect()).unwrap();
    assert_eq!(back, table);
}

#[test]
fn serializer_refuses_wrong_variants() {
    assert!(matches!(
        serialize_csv_headed(MawuValue::Uint(1), 0),
        Err(MawuError::CsvError(CsvError::WriteError(CsvWriteError::UnallowedType(
            ValueKind::Uint
        ))))
    ));
    assert!(matches!(
        serialize_csv_unheaded(MawuValue::CSVObject(vec![]), 0),
        Err(MawuError::CsvError(CsvError::WriteError(CsvWriteError::UnallowedType(
            ValueKind::CSVObject
        ))))
    ));
    // a cell may hold scalars or an array of scalars, nothing else
    let bad_cell = MawuValue::CSVArray(vec![vec![MawuValue::Object(vec![])]]);
    assert!(matches!(
        serialize_csv_unheaded(bad_cell, 0),
        Err(MawuError::CsvError(CsvError::WriteError(CsvWriteError::UnallowedType(
            ValueKind::Object
        ))))
    ));
}

#[test]
fn array_cell_rendering() {
    let table = MawuValue::CSVArray(vec![vec![MawuValue::Array(vec![
        MawuValue::Uint(1),
        MawuValue::Uint(2),
    ])]]);
    let text = serialize_csv_unheaded(table, 0).unwrap();
    assert_eq!(text, "[1,2]\n");
}

#[test]
fn leading_blanks_are_skipped_and_trailing_trimmed() {
    let v = headless(chars("  a  ,\t7\n")).unwrap();
    let rows = v.as_csv_array().unwrap();
    assert_eq!(rows[0][0], MawuValue::Text("a".to_string()));
    assert_eq!(rows[0][1], MawuValue::Uint(7));
}

#[test]
fn utility_helpers() {
    assert_eq!(make_whitespace(4), "    ");
    assert_eq!(make_whitespace(0), "");
    assert!(is_newline("\n"));
    assert!(is_newline("\r\n"));
    assert!(is_newline("\r"));
    assert!(!is_newline("x"));
    assert_eq!(is_digit("7x").unwrap(), true);
    assert_eq!(is_digit("x7").unwrap(), false);
    assert!(is_digit("").is_err());
    assert!(is_end_of_primitive_value(","));
    assert!(!is_end_of_primitive_value("a"));
    assert!(is_whitespace(" "));
    assert!(is_whitespace("\t"));
    assert!(!is_whitespace("_"));
    assert!(is_json_string_terminator_token(Some(&':')));
    assert!(!is_json_string_terminator_token(Some(&'a')));
    assert!(!is_json_string_terminator_token(None));

    let (one, used) = unescape_unicode("2603", "").unwrap();
    assert_eq!(one, "\u{2603}");
    assert!(!used);
    let (pair, used) = unescape_unicode("D83D", "DE00").unwrap();
    assert_eq!(pair, "\u{1F600}");
    assert!(used);
    assert!(unescape_unicode("D83D", "").is_err());
    assert!(unescape_unicode("ZZZZ", "").is_err());
}
