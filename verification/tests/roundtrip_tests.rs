use redshift::grammar::ParseError;
use redshift::reader::{Reader, RedshiftRow};
use redshift::writer::{escape_column_value, ColumnDefinition, Writer};

fn expect_row(row: RedshiftRow, expected: Vec<&str>) {
    assert_eq!(expected.len(), row.values.len());
    for i in 0..expected.len() {
        assert_eq!(String::from(expected[i]), row.values[i]);
    }
}

#[test]
fn escaped_delimiter_and_quote_decode() {
    let input_data = "\"tobe\\|nottobe\"|\"iama\\\"doublequote\"";
    let mut reader = Reader::new(input_data.to_string());
    expect_row(reader.get_next_row().unwrap().unwrap(), vec!["tobe|nottobe", "iama\"doublequote"]);
    assert!(reader.get_next_row().unwrap().is_none());
}

#[test]
fn trailing_backslash_is_fatal() {
    let input_data = "\"abc\\";
    let mut reader = Reader::new(input_data.to_string());
    let r = reader.get_next_row();
    assert_eq!(Err(ParseError::InvalidEscapeSequence(None)), r.map(|_| ()));
    // no row is salvaged from the malformed record, and the reader
    // stays failed
    let r2 = reader.get_next_row();
    assert_eq!(Err(ParseError::InvalidEscapeSequence(None)), r2.map(|_| ()));
}

#[test]
fn unknown_escape_is_fatal() {
    let input_data = "\"a\\zb\"\n";
    let mut reader = Reader::new(input_data.to_string());
    let r = reader.get_next_row();
    assert_eq!(Err(ParseError::InvalidEscapeSequence(Some('z'))), r.map(|_| ()));
}

#[test]
fn unterminated_quote_is_fatal() {
    let input_data = "\"abc|def\n";
    let mut reader = Reader::new(input_data.to_string());
    let r = reader.get_next_row();
    assert_eq!(Err(ParseError::UnterminatedQuote), r.map(|_| ()));
}

#[test]
fn unterminated_quote_at_end_of_stream_is_fatal() {
    let input_data = "\"abc";
    let mut reader = Reader::new(input_data.to_string());
    let r = reader.get_next_row();
    assert_eq!(Err(ParseError::UnterminatedQuote), r.map(|_| ()));
}

#[test]
fn stray_quote_in_unquoted_field_is_fatal() {
    let input_data = "ab\"cd\n";
    let mut reader = Reader::new(input_data.to_string());
    let r = reader.get_next_row();
    assert_eq!(Err(ParseError::UnescapedQuoteInField), r.map(|_| ()));
}

#[test]
fn empty_input_yields_no_row() {
    let mut reader = Reader::new(String::new());
    assert!(reader.get_next_row().unwrap().is_none());
    // the end-marker is repeated on every later call
    assert!(reader.get_next_row().unwrap().is_none());
    assert!(reader.get_next_row().unwrap().is_none());
}

#[test]
fn carriage_return_terminators_collapse() {
    // \r\n counts as one terminator, a lone \r ends a line too
    let input_data = "\"a\"\r\n\"b\"\r\"c\"";
    let mut reader = Reader::new(input_data.to_string());
    expect_row(reader.get_next_row().unwrap().unwrap(), vec!["a"]);
    expect_row(reader.get_next_row().unwrap().unwrap(), vec!["b"]);
    expect_row(reader.get_next_row().unwrap().unwrap(), vec!["c"]);
    assert!(reader.get_next_row().unwrap().is_none());
}

#[test]
fn blank_lines_are_suppressed() {
    let input_data = "\n\n\"a\"\n\n\"b\"\n";
    let mut reader = Reader::new(input_data.to_string());
    expect_row(reader.get_next_row().unwrap().unwrap(), vec!["a"]);
    expect_row(reader.get_next_row().unwrap().unwrap(), vec!["b"]);
    assert!(reader.get_next_row().unwrap().is_none());
}

#[test]
fn leading_spaces_discarded_only_outside_quotes() {
    let input_data = "  a b|\" c\"|x \n";
    let mut reader = Reader::new(input_data.to_string());
    expect_row(reader.get_next_row().unwrap().unwrap(), vec!["a b", " c", "x "]);
    assert!(reader.get_next_row().unwrap().is_none());
}

#[test]
fn stray_quote_line_after_rows_is_fatal() {
    // both data rows decode; the lone `"` on the last line opens a
    // quote that the end of the stream never closes
    let input_data = "\"a\"|\"b\"\n\"c\"|\"d\"\n\"";
    let mut reader = Reader::new(input_data.to_string());
    expect_row(reader.get_next_row().unwrap().unwrap(), vec!["a", "b"]);
    expect_row(reader.get_next_row().unwrap().unwrap(), vec!["c", "d"]);
    assert_eq!(Err(ParseError::UnterminatedQuote), reader.get_next_row().map(|_| ()));
}

#[test]
fn quote_after_closing_quote_is_fatal() {
    let input_data = "\"a\"\"|x\n";
    let mut reader = Reader::new(input_data.to_string());
    assert_eq!(Err(ParseError::UnescapedQuoteInField), reader.get_next_row().map(|_| ()));
}

#[test]
fn escape_column_value_exact_forms() {
    assert_eq!("\"plain\"", escape_column_value("plain".to_string()).as_str());
    assert_eq!("\"a\\|b\"", escape_column_value("a|b".to_string()).as_str());
    assert_eq!("\"a\\\\b\"", escape_column_value("a\\b".to_string()).as_str());
    assert_eq!("\"a\\\nb\"", escape_column_value("a\nb".to_string()).as_str());
    assert_eq!("\"a\\\rb\"", escape_column_value("a\rb".to_string()).as_str());
    assert_eq!("\"a\\\"b\"", escape_column_value("a\"b".to_string()).as_str());
    // a single quote needs no escape on the way out
    assert_eq!("\"a'b\"", escape_column_value("a'b".to_string()).as_str());
    assert_eq!("\"\"", escape_column_value(String::new()).as_str());
}

#[test]
fn round_trip_preserves_reserved_characters() {
    let originals = vec![
        vec!["tobe|nottobe", "iama\"doublequote"],
        vec!["back\\slash", "new\nline"],
        vec!["car\rriage", "it's quoted"],
        vec![" leading and trailing ", ""],
    ];
    let columns: Vec<ColumnDefinition<fn(&Vec<String>) -> String>> = vec![
        ColumnDefinition { name: "first", extract_column: |r: &Vec<String>| r[0].clone() },
        ColumnDefinition { name: "second", extract_column: |r: &Vec<String>| r[1].clone() },
    ];
    let items: Vec<Vec<String>> = originals
        .iter()
        .map(|r| r.iter().map(|s| s.to_string()).collect())
        .collect();

    let mut encoded = String::new();
    Writer::new().write_columns(&mut encoded, columns, items);

    let mut reader = Reader::new(encoded);
    for expected in &originals {
        expect_row(reader.get_next_row().unwrap().unwrap(), expected.clone());
    }
    assert!(reader.get_next_row().unwrap().is_none());
}

#[test]
fn header_round_trip_yields_names_first() {
    let columns: Vec<ColumnDefinition<fn(&u32) -> String>> = vec![
        ColumnDefinition { name: "value", extract_column: |n: &u32| n.to_string() },
        ColumnDefinition { name: "double", extract_column: |n: &u32| (n * 2).to_string() },
    ];
    let items = vec![1u32, 2, 3];

    let mut encoded = String::new();
    Writer::new().with_header().write_columns(&mut encoded, columns, items);
    assert_eq!("\"value\"|\"double\"\n\"1\"|\"2\"\n\"2\"|\"4\"\n\"3\"|\"6\"\n", encoded.as_str());

    let mut reader = Reader::new(encoded);
    expect_row(reader.get_next_row().unwrap().unwrap(), vec!["value", "double"]);
    expect_row(reader.get_next_row().unwrap().unwrap(), vec!["1", "2"]);
    expect_row(reader.get_next_row().unwrap().unwrap(), vec!["2", "4"]);
    expect_row(reader.get_next_row().unwrap().unwrap(), vec!["3", "6"]);
    assert!(reader.get_next_row().unwrap().is_none());
}

#[test]
fn writer_without_columns_emits_blank_lines() {
    let columns: Vec<ColumnDefinition<fn(&u32) -> String>> = Vec::new();
    let items = vec![7u32, 8];
    let mut encoded = String::new();
    Writer::new().write_columns(&mut encoded, columns, items);
    // one terminator per item; the reader suppresses such blank lines
    assert_eq!("\n\n", encoded.as_str());
    let mut reader = Reader::new(encoded);
    assert!(reader.get_next_row().unwrap().is_none());
}
