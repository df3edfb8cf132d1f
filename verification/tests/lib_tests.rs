use redshift::grammar::ParseError;
use redshift::reader::{Reader, RedshiftRow};

fn check_row(row: RedshiftRow, expected: Vec<&str>) {
    assert_eq!(expected.len(), row.values.len());
    for i in 0..expected.len() {
        assert_eq!(String::from(expected[i]), row.values[i]);
    }
}

#[test]
fn lib_basic_reader_test() {
    // Arrange
    let input_data = "\"a\"|\"b\"\n\"c\"|\"d\"\n";

    // Act
    let mut redshift_reader = Reader::new(input_data.to_string());

    // Assert
    check_row(redshift_reader.get_next_row().unwrap().unwrap(), vec!["a", "b"]);
    check_row(redshift_reader.get_next_row().unwrap().unwrap(), vec!["c", "d"]);
    assert!(redshift_reader.get_next_row().unwrap().is_none());
}

#[test]
fn lib_can_parse_empty_values() {
    // Arrange
    let input_data = "||\n||\n";

    // Act
    let mut redshift_reader = Reader::new(input_data.to_string());

    // Assert
    check_row(redshift_reader.get_next_row().unwrap().unwrap(), vec!["", "", ""]);
    check_row(redshift_reader.get_next_row().unwrap().unwrap(), vec!["", "", ""]);
    assert!(redshift_reader.get_next_row().unwrap().is_none());
}

#[test]
fn lib_basic_escape_sequences_test() {
    // Arrange: the third line's second field is unquoted and ends in
    // a bare double quote, which the grammar rejects
    let input_data = "\"tobe\\|nottobe\"|\"iama\\\"doublequote\"\n\"iama\\'singlequote\"|\"iama\\\\backslash\"\n\"iama\\|verticalbar\"|iama\\\nnewline\"\n\"iama\\\rcarriagereturn\"|\"iam\\\r\\\nwindows\"";

    // Act
    let mut redshift_reader = Reader::new(input_data.to_string());

    // Assert
    check_row(
        redshift_reader.get_next_row().unwrap().unwrap(),
        vec!["tobe|nottobe", "iama\"doublequote"],
    );
    check_row(
        redshift_reader.get_next_row().unwrap().unwrap(),
        vec!["iama'singlequote", "iama\\backslash"],
    );
    assert_eq!(
        Err(ParseError::UnescapedQuoteInField),
        redshift_reader.get_next_row().map(|_| ())
    );
    // the reader is poisoned: it keeps returning the same error
    assert_eq!(
        Err(ParseError::UnescapedQuoteInField),
        redshift_reader.get_next_row().map(|_| ())
    );
}
