use ppl::query::SchemaColumn;
use ppl::table::{format_table, TableCell};

fn columns(names: &[&str]) -> Vec<SchemaColumn> {
    names
        .iter()
        .map(|n| SchemaColumn {
            name: n.to_string(),
        })
        .collect()
}

fn modern(records: Vec<Vec<&str>>) -> String {
    let mut builder = tabled::builder::Builder::default();
    for r in records {
        builder.push_record(r);
    }
    builder
        .build()
        .with(tabled::settings::Style::modern())
        .to_string()
}

#[test]
fn table_without_rows_is_empty() {
    assert_eq!(format_table(&columns(&["a", "b"]), &vec![]), "");
}

#[test]
fn table_cells_show_strings_nulls_and_json() {
    let rows = vec![
        vec![
            TableCell::Text("alice".to_string()),
            TableCell::Other("30".to_string()),
            TableCell::Null,
        ],
        vec![
            TableCell::Text("bob".to_string()),
            TableCell::Other("[1,2]".to_string()),
            TableCell::Other("true".to_string()),
        ],
    ];
    let out = format_table(&columns(&["name", "age", "tags"]), &rows);
    let expected = modern(vec![
        vec!["name", "age", "tags"],
        vec!["alice", "30", "null"],
        vec!["bob", "[1,2]", "true"],
    ]);
    assert_eq!(out, expected);
    assert!(out.contains("│ name"));
    assert!(out.starts_with('┌'));
}

#[test]
fn table_pads_short_rows() {
    let rows = vec![
        vec![TableCell::Text("x".to_string())],
        vec![
            TableCell::Null,
            TableCell::Other("1".to_string()),
            TableCell::Other("2".to_string()),
        ],
    ];
    let out = format_table(&columns(&["a", "b"]), &rows);
    let expected = modern(vec![vec!["a", "b", ""], vec!["x", "", ""], vec!["null", "1", "2"]]);
    assert_eq!(out, expected);
}
