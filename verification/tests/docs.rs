use gws::docs::{
    extract_cell_text, extract_text_runs, find_cell_range, find_paragraphs_containing,
    find_table_start_index, find_tables, get_table_row_count, read_table,
};
use gws::json::JsonValue;

fn s(v: &str) -> JsonValue {
    JsonValue::Str(v.to_string())
}

fn n(v: i64) -> JsonValue {
    JsonValue::from_i64(v)
}

fn obj(entries: Vec<(&str, JsonValue)>) -> JsonValue {
    JsonValue::Object(entries.into_iter().map(|(k, v)| (k.to_string(), v)).collect())
}

fn arr(items: Vec<JsonValue>) -> JsonValue {
    JsonValue::Array(items)
}

fn text_cell(text: &str) -> JsonValue {
    obj(vec![(
        "content",
        arr(vec![obj(vec![(
            "paragraph",
            obj(vec![("elements", arr(vec![obj(vec![("textRun", obj(vec![("content", s(text))]))])]))]),
        )])]),
    )])
}

fn doc_with(content: Vec<JsonValue>) -> JsonValue {
    obj(vec![("body", obj(vec![("content", arr(content))]))])
}

#[test]
fn test_extract_text_runs_from_doc() {
    let doc = doc_with(vec![obj(vec![(
        "paragraph",
        obj(vec![(
            "elements",
            arr(vec![obj(vec![
                ("textRun", obj(vec![("content", s("Hello world"))])),
                ("startIndex", n(1)),
                ("endIndex", n(12)),
            ])]),
        )]),
    )])]);
    let runs = extract_text_runs(&doc);
    assert_eq!(runs.len(), 1);
    assert_eq!(runs[0].0, "Hello world");
    assert_eq!(runs[0].1, 1);
    assert_eq!(runs[0].2, 12);
}

fn para_element(start: i64, end: i64, text: &str) -> JsonValue {
    obj(vec![
        ("startIndex", n(start)),
        ("endIndex", n(end)),
        (
            "paragraph",
            obj(vec![(
                "elements",
                arr(vec![obj(vec![
                    ("textRun", obj(vec![("content", s(text))])),
                    ("startIndex", n(start)),
                    ("endIndex", n(end)),
                ])]),
            )]),
        ),
    ])
}

#[test]
fn test_find_paragraphs_containing() {
    let doc = doc_with(vec![para_element(0, 12, "Hello world\n"), para_element(12, 22, "Goodbye\n")]);
    let results = find_paragraphs_containing(&doc, "Hello");
    assert_eq!(results.len(), 1);
    assert!(results[0].0.contains("Hello"));
    assert_eq!(results[0].1, 0);

    let results = find_paragraphs_containing(&doc, "Goodbye");
    assert_eq!(results.len(), 1);
    assert_eq!(results[0].1, 12);

    let results = find_paragraphs_containing(&doc, "not here");
    assert!(results.is_empty());
}

#[test]
fn test_read_table() {
    let table = obj(vec![(
        "tableRows",
        arr(vec![
            obj(vec![("tableCells", arr(vec![text_cell("Name\n"), text_cell("Age\n")]))]),
            obj(vec![("tableCells", arr(vec![text_cell("Alice\n"), text_cell("30\n")]))]),
        ]),
    )]);
    let (rows, row_count, col_count) = read_table(&table);
    assert_eq!(row_count, 2);
    assert_eq!(col_count, 2);
    assert_eq!(rows[0], vec!["Name", "Age"]);
    assert_eq!(rows[1], vec!["Alice", "30"]);
}

fn one_cell_table(start: i64, end: i64, text: &str) -> JsonValue {
    obj(vec![
        ("startIndex", n(start)),
        ("endIndex", n(end)),
        ("table", obj(vec![("tableRows", arr(vec![obj(vec![("tableCells", arr(vec![text_cell(text)]))])]))])),
    ])
}

#[test]
fn test_find_tables() {
    let doc = doc_with(vec![
        obj(vec![("startIndex", n(0)), ("endIndex", n(5)), ("paragraph", obj(vec![("elements", arr(vec![]))]))]),
        one_cell_table(5, 50, "A\n"),
        one_cell_table(50, 100, "B\n"),
    ]);
    let tables = find_tables(&doc);
    assert_eq!(tables.len(), 2);
    assert_eq!(tables[0].0, 5);
    assert_eq!(tables[1].0, 50);
}

#[test]
fn test_extract_cell_text_trims_newline() {
    let cell = text_cell("Hello\n");
    assert_eq!(extract_cell_text(&cell), "Hello");
}

#[test]
fn test_extract_cell_text_multi_paragraph() {
    let para = |t: &str| {
        obj(vec![(
            "paragraph",
            obj(vec![("elements", arr(vec![obj(vec![("textRun", obj(vec![("content", s(t))]))])]))]),
        )])
    };
    let cell = obj(vec![("content", arr(vec![para("Line 1\n"), para("Line 2\n")]))]);
    assert_eq!(extract_cell_text(&cell), "Line 1\nLine 2");
}

fn empty_para(start: i64, end: i64) -> JsonValue {
    obj(vec![("paragraph", obj(vec![])), ("startIndex", n(start)), ("endIndex", n(end))])
}

fn empty_table(start: i64, end: i64) -> JsonValue {
    obj(vec![("table", obj(vec![("tableRows", arr(vec![]))])), ("startIndex", n(start)), ("endIndex", n(end))])
}

#[test]
fn test_find_table_start_index_basic() {
    let doc = doc_with(vec![empty_para(1, 10), empty_table(11, 50), empty_para(51, 60), empty_table(61, 100)]);
    assert_eq!(find_table_start_index(&doc, 0).unwrap(), 11);
    assert_eq!(find_table_start_index(&doc, 1).unwrap(), 61);
}

#[test]
fn test_find_table_start_index_not_found() {
    let doc = doc_with(vec![empty_para(1, 10)]);
    let err = find_table_start_index(&doc, 0).unwrap_err();
    assert!(err.message().contains("Table index 0 not found"));
}

fn range_para(start: i64, end: i64) -> JsonValue {
    obj(vec![("startIndex", n(start)), ("endIndex", n(end))])
}

fn cell_of(paras: Vec<JsonValue>) -> JsonValue {
    obj(vec![("content", arr(paras))])
}

#[test]
fn test_find_cell_range_basic() {
    let doc = doc_with(vec![obj(vec![
        (
            "table",
            obj(vec![(
                "tableRows",
                arr(vec![
                    obj(vec![(
                        "tableCells",
                        arr(vec![cell_of(vec![range_para(5, 15)]), cell_of(vec![range_para(16, 25)])]),
                    )]),
                    obj(vec![("tableCells", arr(vec![cell_of(vec![range_para(30, 40), range_para(40, 50)])]))]),
                ]),
            )]),
        ),
        ("startIndex", n(1)),
        ("endIndex", n(100)),
    ])]);

    // Table 0, row 0, col 0: start=5, end=15-1=14
    let (s0, e0) = find_cell_range(&doc, 0, 0, 0).unwrap();
    assert_eq!(s0, 5);
    assert_eq!(e0, 14);

    // Table 0, row 0, col 1: start=16, end=25-1=24
    let (s1, e1) = find_cell_range(&doc, 0, 0, 1).unwrap();
    assert_eq!(s1, 16);
    assert_eq!(e1, 24);

    // Table 0, row 1, col 0: multiple paragraphs, start=30, end=50-1=49
    let (s2, e2) = find_cell_range(&doc, 0, 1, 0).unwrap();
    assert_eq!(s2, 30);
    assert_eq!(e2, 49);
}

fn single_cell_doc() -> JsonValue {
    doc_with(vec![obj(vec![
        (
            "table",
            obj(vec![("tableRows", arr(vec![obj(vec![("tableCells", arr(vec![cell_of(vec![range_para(5, 15)])]))])]))]),
        ),
        ("startIndex", n(1)),
        ("endIndex", n(50)),
    ])])
}

#[test]
fn test_find_cell_range_row_out_of_bounds() {
    let doc = single_cell_doc();
    let err = find_cell_range(&doc, 0, 5, 0).unwrap_err();
    assert!(err.message().contains("Row 5 not found"));
}

#[test]
fn test_find_cell_range_col_out_of_bounds() {
    let doc = single_cell_doc();
    let err = find_cell_range(&doc, 0, 0, 3).unwrap_err();
    assert!(err.message().contains("Col 3 not found"));
}

#[test]
fn test_get_table_row_count() {
    let doc = doc_with(vec![obj(vec![
        (
            "table",
            obj(vec![(
                "tableRows",
                arr(vec![
                    obj(vec![("tableCells", arr(vec![]))]),
                    obj(vec![("tableCells", arr(vec![]))]),
                    obj(vec![("tableCells", arr(vec![]))]),
                ]),
            )]),
        ),
        ("startIndex", n(1)),
        ("endIndex", n(100)),
    ])]);
    assert_eq!(get_table_row_count(&doc, 0).unwrap(), 3);
}

#[test]
fn test_get_table_row_count_table_not_found() {
    let doc = doc_with(vec![empty_para(1, 10)]);
    let err = get_table_row_count(&doc, 0).unwrap_err();
    assert!(err.message().contains("Table index 0 not found"));
}

#[test]
fn table_index_message_counts_tables() {
    let doc = doc_with(vec![empty_table(11, 50), empty_table(61, 100)]);
    let err = find_table_start_index(&doc, 7).unwrap_err();
    assert_eq!(err.message(), "Table index 7 not found (document has 2 tables)");
    let err = find_table_start_index(&obj(vec![]), 0).unwrap_err();
    assert_eq!(err.message(), "No body content");
}

#[test]
fn text_runs_include_table_cells() {
    let doc = doc_with(vec![para_element(1, 4, "ab\n"), one_cell_table(4, 20, "cell\n")]);
    let runs = extract_text_runs(&doc);
    assert_eq!(runs.len(), 2);
    assert_eq!(runs[1].0, "cell\n");
    assert_eq!(runs[1].1, 0);
}
