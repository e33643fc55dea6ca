use data_lib::data_clients::PostgresSQLClient;
use data_lib::data_serialization::{Consumable, DataFormat};
use data_lib::errors::DataError;
use data_lib::row_codec::{
    decode_row, decode_rows, encode_row, parse_field, push_escaped, push_field, split_fields, NativeRow,
    NativeValue, ESCAPE, SEPARATOR,
};

fn chars(text: &str) -> Vec<char> {
    text.chars().collect()
}

fn text(value: &str) -> NativeValue {
    NativeValue::Text(value.to_string())
}

fn float(value: f64) -> NativeValue {
    NativeValue::Float(value.to_bits())
}

#[test]
fn the_delimiter_is_a_comma_and_the_escape_a_backslash() {
    assert_eq!(SEPARATOR, ',');
    assert_eq!(ESCAPE, '\\');
}

#[test]
fn each_kind_of_value_has_its_field() {
    assert_eq!(encode_row(&vec![NativeValue::Null]), Ok("n".to_string()));
    assert_eq!(encode_row(&vec![NativeValue::Integer(-42)]), Ok("i-42".to_string()));
    assert_eq!(encode_row(&vec![NativeValue::Integer(0)]), Ok("i0".to_string()));
    assert_eq!(encode_row(&vec![float(1.0)]), Ok("f4607182418800017408".to_string()));
    assert_eq!(encode_row(&vec![float(0.0)]), Ok("f0".to_string()));
    assert_eq!(encode_row(&vec![text("hello")]), Ok("thello".to_string()));
    assert_eq!(encode_row(&vec![text("")]), Ok("t".to_string()));
}

#[test]
fn a_row_is_its_fields_with_commas_between() {
    let row = vec![NativeValue::Integer(7), text("steel"), NativeValue::Null, float(-2.5)];
    assert_eq!(encode_row(&row), Ok("i7,tsteel,n,f13836183955189006336".to_string()));
}

#[test]
fn a_row_without_columns_is_the_empty_string() {
    assert_eq!(encode_row(&Vec::new()), Ok(String::new()));
    assert_eq!(decode_row(""), Some(Vec::new()));
}

#[test]
fn separators_and_escapes_inside_a_value_are_escaped() {
    assert_eq!(encode_row(&vec![text("a,b")]), Ok("ta\\,b".to_string()));
    assert_eq!(encode_row(&vec![text("a\\b")]), Ok("ta\\\\b".to_string()));
    assert_eq!(encode_row(&vec![text(",")]), Ok("t\\,".to_string()));
    assert_eq!(encode_row(&vec![text("\\,"), text(",\\")]), Ok("t\\\\\\,,t\\,\\\\".to_string()));
    let mut out = "x".to_string();
    push_escaped(&mut out, "1,2\\3");
    assert_eq!(out, "x1\\,2\\\\3");
}

#[test]
fn a_field_is_appended_to_what_is_there() {
    let mut out = "i1,".to_string();
    push_field(&mut out, &text("a,b"));
    assert_eq!(out, "i1,ta\\,b");
    push_field(&mut out, &NativeValue::Integer(i64::MIN));
    assert_eq!(out, "i1,ta\\,bi-9223372036854775808");
}

#[test]
fn encoding_stops_at_the_first_value_without_a_textual_form() {
    let row = vec![NativeValue::Integer(1), NativeValue::Undecodable, NativeValue::Undecodable];
    assert_eq!(encode_row(&row), Err(1));
    assert_eq!(encode_row(&vec![NativeValue::Undecodable]), Err(0));
}

#[test]
fn integers_come_back_exactly() {
    for v in [0i64, 1, -1, 42, -42, 2147483647, -2147483648, i64::MAX, i64::MIN] {
        let row = vec![NativeValue::Integer(v)];
        let written = encode_row(&row).unwrap();
        assert_eq!(decode_row(&written), Some(row));
    }
}

#[test]
fn text_comes_back_exactly() {
    for value in [
        "",
        "plain",
        "with, comma",
        "back\\slash",
        "\\",
        ",",
        ",,\\\\,",
        "n",
        "i12",
        "line\nbreak",
        "\u{e9}\u{4e2d}\u{1f600}",
        " id SERIAL PRIMARY KEY",
    ] {
        let row = vec![text(value)];
        let written = encode_row(&row).unwrap();
        assert_eq!(decode_row(&written), Some(row));
    }
}

#[test]
fn floating_point_comes_back_bit_for_bit() {
    for value in [
        0.0f64,
        -0.0,
        1.0,
        -2.5,
        0.1,
        1.0e-320,
        f64::MAX,
        f64::MIN_POSITIVE,
        f64::EPSILON,
        f64::INFINITY,
        f64::NEG_INFINITY,
        f64::NAN,
        (0.1f32) as f64,
    ] {
        let row = vec![float(value)];
        let written = encode_row(&row).unwrap();
        let back = decode_row(&written).unwrap();
        assert_eq!(back.len(), 1);
        match &back[0] {
            NativeValue::Float(bits) => {
                assert_eq!(*bits, value.to_bits());
                let restored = f64::from_bits(*bits);
                assert!(restored == value || (restored.is_nan() && value.is_nan()));
            }
            other => panic!("not a floating-point value: {:?}", other),
        }
    }
}

#[test]
fn null_comes_back_as_null() {
    let row = vec![NativeValue::Null, NativeValue::Null];
    let written = encode_row(&row).unwrap();
    assert_eq!(written, "n,n");
    assert_eq!(decode_row(&written), Some(row));
}

#[test]
fn a_mixed_row_comes_back_column_by_column() {
    let row = vec![
        NativeValue::Integer(-17),
        text("a,b\\c"),
        NativeValue::Null,
        float(3.25),
        text(""),
        NativeValue::Integer(i64::MAX),
        text("t,n,i,f"),
    ];
    let written = encode_row(&row).unwrap();
    assert_eq!(decode_row(&written), Some(row));
}

#[test]
fn null_and_empty_text_and_the_letter_n_differ() {
    let null = encode_row(&vec![NativeValue::Null]).unwrap();
    let empty = encode_row(&vec![text("")]).unwrap();
    let letter = encode_row(&vec![text("n")]).unwrap();
    assert_ne!(null, empty);
    assert_ne!(null, letter);
    assert_eq!(decode_row(&letter), Some(vec![text("n")]));
    let number = encode_row(&vec![NativeValue::Integer(12)]).unwrap();
    let digits = encode_row(&vec![text("12")]).unwrap();
    assert_ne!(number, digits);
}

#[test]
fn fields_are_split_at_unescaped_separators() {
    assert_eq!(split_fields(&chars("")), Some(Vec::new()));
    assert_eq!(split_fields(&chars("a")), Some(vec![chars("a")]));
    assert_eq!(split_fields(&chars("a,b")), Some(vec![chars("a"), chars("b")]));
    assert_eq!(split_fields(&chars("a\\,b")), Some(vec![chars("a,b")]));
    assert_eq!(split_fields(&chars("a\\\\,b")), Some(vec![chars("a\\"), chars("b")]));
    assert_eq!(split_fields(&chars(",")), Some(vec![chars(""), chars("")]));
    assert_eq!(split_fields(&chars("a,")), Some(vec![chars("a"), chars("")]));
    assert_eq!(split_fields(&chars("\\x")), Some(vec![chars("x")]));
}

#[test]
fn an_escape_at_the_end_is_malformed() {
    assert_eq!(split_fields(&chars("\\")), None);
    assert_eq!(split_fields(&chars("ta\\")), None);
    assert_eq!(split_fields(&chars("ta,tb\\")), None);
    assert_eq!(decode_row("ta\\"), None);
}

#[test]
fn a_field_is_read_by_its_tag() {
    assert_eq!(parse_field(&chars("n")), Some(NativeValue::Null));
    assert_eq!(parse_field(&chars("i-5")), Some(NativeValue::Integer(-5)));
    assert_eq!(parse_field(&chars("f12")), Some(NativeValue::Float(12)));
    assert_eq!(parse_field(&chars("thello")), Some(text("hello")));
    assert_eq!(parse_field(&chars("t")), Some(text("")));
}

#[test]
fn a_field_without_a_known_tag_or_a_proper_value_is_malformed() {
    assert_eq!(parse_field(&chars("")), None);
    assert_eq!(parse_field(&chars("x1")), None);
    assert_eq!(parse_field(&chars("nn")), None);
    assert_eq!(parse_field(&chars("i")), None);
    assert_eq!(parse_field(&chars("i-")), None);
    assert_eq!(parse_field(&chars("i1.5")), None);
    assert_eq!(parse_field(&chars("i9223372036854775808")), None);
    assert_eq!(parse_field(&chars("f")), None);
    assert_eq!(parse_field(&chars("f-1")), None);
    assert_eq!(parse_field(&chars("f18446744073709551616")), None);
    assert_eq!(parse_field(&chars("T")), None);
}

#[test]
fn a_malformed_field_spoils_the_whole_row() {
    assert_eq!(decode_row("i1,,i2"), None);
    assert_eq!(decode_row("i1,"), None);
    assert_eq!(decode_row(","), None);
    assert_eq!(decode_row("i1,x"), None);
    assert_eq!(decode_row("i1,tx"), Some(vec![NativeValue::Integer(1), text("x")]));
}

#[test]
fn rows_become_one_string_each_in_order() {
    let rows: Vec<NativeRow> = vec![
        vec![NativeValue::Integer(1), text("iron")],
        Vec::new(),
        vec![NativeValue::Integer(2), text("wood, dry")],
    ];
    assert_eq!(
        PostgresSQLClient::rows_to_string(rows),
        Ok(vec!["i1,tiron".to_string(), String::new(), "i2,twood\\, dry".to_string()])
    );
    assert_eq!(PostgresSQLClient::rows_to_string(Vec::new()), Ok(Vec::new()));
}

#[test]
fn a_decode_failure_names_row_and_column() {
    let rows: Vec<NativeRow> = vec![
        vec![NativeValue::Integer(1), text("iron")],
        vec![NativeValue::Integer(2), text("wood")],
        vec![NativeValue::Undecodable, text("clay")],
    ];
    assert_eq!(
        PostgresSQLClient::rows_to_string(rows),
        Err(DataError::DecodeError { row: 2, column: 0 })
    );
}

#[test]
fn a_decode_failure_names_the_first_place_only() {
    let rows: Vec<NativeRow> = vec![
        vec![NativeValue::Integer(1)],
        vec![NativeValue::Null, text("a"), NativeValue::Undecodable, NativeValue::Undecodable],
        vec![NativeValue::Undecodable],
    ];
    assert_eq!(
        PostgresSQLClient::rows_to_string(rows),
        Err(DataError::DecodeError { row: 1, column: 2 })
    );
}

#[test]
fn a_value_is_cloned_with_its_contents() {
    let values = vec![
        NativeValue::Null,
        NativeValue::Integer(-3),
        NativeValue::Float(77),
        text("copy, me"),
        NativeValue::Undecodable,
    ];
    let copies: Vec<NativeValue> = values.iter().map(|v| v.clone()).collect();
    assert_eq!(copies, values);
}

#[test]
fn a_dataset_comes_back_row_by_row() {
    let rows: Vec<NativeRow> = vec![
        vec![NativeValue::Integer(1), text("iron"), float(7.874)],
        Vec::new(),
        vec![NativeValue::Null, text("a,b\\c"), float(f64::NAN)],
    ];
    let copy: Vec<NativeRow> = rows.iter().map(|row| row.to_vec()).collect();
    let written = PostgresSQLClient::rows_to_string(copy).unwrap();
    let data = Consumable::new(written);
    assert_eq!(decode_rows(&data, DataFormat::CSV), Some(rows));
}

#[test]
fn a_dataset_with_a_malformed_entry_does_not_come_back() {
    let good = Consumable::new(vec!["i1,ta".to_string(), "".to_string(), "n".to_string()]);
    assert_eq!(
        decode_rows(&good, DataFormat::CSV),
        Some(vec![vec![NativeValue::Integer(1), text("a")], Vec::new(), vec![NativeValue::Null]])
    );
    let bad = Consumable::new(vec!["i1,ta".to_string(), "1,a".to_string()]);
    assert_eq!(decode_rows(&bad, DataFormat::CSV), None);
    let schema = Consumable::new(vec!["test ".to_string(), " id SERIAL PRIMARY KEY".to_string()]);
    assert_eq!(decode_rows(&schema, DataFormat::CSV), None);
    assert_eq!(decode_rows(&Consumable::new(Vec::new()), DataFormat::CSV), Some(Vec::new()));
}
