use redshift::writer::{ColumnDefinition, Writer};

#[allow(non_snake_case)]
struct TestItem<'a> {
    pub A: &'a str,
    pub B: &'a str,
    pub C: &'a str,
}

#[test]
fn basic_writer_test() {
    // Arrange
    let test_column_definitions: Vec<ColumnDefinition<fn(&TestItem) -> String>> = vec![
        ColumnDefinition {
            name: "Acolumn",
            extract_column: |i: &TestItem| i.A.to_string().clone(),
        },
        ColumnDefinition {
            name: "Bcolumn",
            extract_column: |i: &TestItem| i.B.to_string().clone(),
        },
        ColumnDefinition {
            name: "Ccolumn",
            extract_column: |i: &TestItem| i.C.to_string().clone(),
        },
    ];
    let items = vec![
        TestItem { A: "a1", B: "b1", C: "c1" },
        TestItem { A: "a2", B: "b2", C: "c2" },
        TestItem { A: "a3", B: "b3", C: "c3" },
    ];

    // Act
    let mut out = String::new();
    let writer = Writer::new();
    writer.write_columns(&mut out, test_column_definitions, items);

    // Assert
    assert_eq!("\"a1\"|\"b1\"|\"c1\"\n\"a2\"|\"b2\"|\"c2\"\n\"a3\"|\"b3\"|\"c3\"\n", out.as_str());
}

#[test]
fn basic_writer_with_header() {
    // Arrange
    let test_column_definitions: Vec<ColumnDefinition<fn(&TestItem) -> String>> = vec![
        ColumnDefinition {
            name: "Acolumn",
            extract_column: |i: &TestItem| i.A.to_string().clone(),
        },
        ColumnDefinition {
            name: "Bcolumn",
            extract_column: |i: &TestItem| i.B.to_string().clone(),
        },
        ColumnDefinition {
            name: "Ccolumn",
            extract_column: |i: &TestItem| i.C.to_string().clone(),
        },
    ];
    let items = vec![
        TestItem { A: "a1", B: "b1", C: "c1" },
        TestItem { A: "a2", B: "b2", C: "c2" },
        TestItem { A: "a3", B: "b3", C: "c3" },
    ];

    // Act
    let mut out = String::new();
    let writer = Writer::new();
    writer.with_header().write_columns(&mut out, test_column_definitions, items);

    // Assert
    assert_eq!(
        "\"Acolumn\"|\"Bcolumn\"|\"Ccolumn\"\n\"a1\"|\"b1\"|\"c1\"\n\"a2\"|\"b2\"|\"c2\"\n\"a3\"|\"b3\"|\"c3\"\n",
        out.as_str()
    );
}
