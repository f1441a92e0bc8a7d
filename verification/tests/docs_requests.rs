use gws::discovery::{RestDescription, RestMethod, RestResource};
use gws::docs::{
    add_column_request, build_write_request, cell_range_valid, delete_row_request,
    find_link_range, find_replace_requests, insert_row_request, link_range_valid, link_requests,
    occurrences_changed, set_style_requests, table_at, table_list, table_read,
    table_write_requests, DocsCommand, DocsHelper,
};
use gws::error::GwsError;
use gws::json::JsonValue;

fn s(v: &str) -> JsonValue {
    JsonValue::Str(v.to_string())
}

fn n(v: i64) -> JsonValue {
    JsonValue::from_i64(v)
}

fn obj(entries: Vec<(&str, JsonValue)>) -> JsonValue {
    JsonValue::Object(entries.into_iter().map(|(k, v)| (k.to_string(), v)).collect())
}

fn arr(items: Vec<JsonValue>) -> JsonValue {
    JsonValue::Array(items)
}

fn at<'a>(v: &'a JsonValue, keys: &[&str]) -> &'a JsonValue {
    keys.iter().fold(v, |cur, k| cur.at_key(k))
}

fn doc_with(content: Vec<JsonValue>) -> JsonValue {
    obj(vec![("body", obj(vec![("content", arr(content))]))])
}

fn para_element(start: i64, end: i64, text: &str) -> JsonValue {
    obj(vec![
        ("startIndex", n(start)),
        ("endIndex", n(end)),
        (
            "paragraph",
            obj(vec![(
                "elements",
                arr(vec![obj(vec![
                    ("textRun", obj(vec![("content", s(text))])),
                    ("startIndex", n(start)),
                    ("endIndex", n(end)),
                ])]),
            )]),
        ),
    ])
}

/// A cell with one paragraph spanning `start..end` whose text is `text`.
fn cell(start: i64, end: i64, text: &str) -> JsonValue {
    obj(vec![("content", arr(vec![para_element(start, end, text)]))])
}

/// A table at `start..end` with the given rows of cells.
fn table(start: i64, end: i64, rows: Vec<Vec<JsonValue>>) -> JsonValue {
    let rows = rows.into_iter().map(|cells| obj(vec![("tableCells", arr(cells))])).collect();
    obj(vec![
        ("startIndex", n(start)),
        ("endIndex", n(end)),
        ("table", obj(vec![("tableRows", arr(rows))])),
    ])
}

/// A document with a paragraph and a two-by-two table of names and ages.
fn people_doc() -> JsonValue {
    doc_with(vec![
        para_element(1, 10, "Heading\n"),
        table(
            10,
            60,
            vec![
                vec![cell(12, 17, "Name\n"), cell(18, 22, "Age\n")],
                vec![cell(24, 30, "Alice\n"), cell(31, 34, "30\n")],
            ],
        ),
    ])
}

fn make_mock_doc() -> RestDescription {
    let methods =
        vec![("batchUpdate".to_string(), RestMethod { scopes: vec!["https://scope".to_string()] })];
    let documents_res = RestResource { methods, resources: Vec::new() };
    RestDescription { resources: vec![("documents".to_string(), documents_res)] }
}

#[test]
fn test_build_write_request() {
    let doc = make_mock_doc();
    let (params, body, scopes) = build_write_request("123", "hello world", &doc).unwrap();

    assert_eq!(params.at_key("documentId").as_str(), Some("123"));
    let insert = at(body.at_key("requests").at_idx(0), &["insertText"]);
    assert_eq!(insert.at_key("text").as_str(), Some("hello world"));
    assert!(insert.get("endOfSegmentLocation").is_some());
    assert_eq!(scopes[0], "https://scope");
}

#[test]
fn build_write_request_without_method_is_discovery_error() {
    let doc = RestDescription { resources: Vec::new() };
    match build_write_request("123", "x", &doc) {
        Err(GwsError::Discovery(m)) => assert_eq!(m, "Resource 'documents' not found"),
        other => panic!("unexpected: {:?}", other),
    }
}

#[test]
fn find_replace_request_shape() {
    let reqs = find_replace_requests("old", "new", true);
    let inner = at(reqs.at_idx(0), &["replaceAllText"]);
    assert_eq!(at(inner, &["containsText", "text"]).as_str(), Some("old"));
    assert!(matches!(at(inner, &["containsText", "matchCase"]), JsonValue::Bool(true)));
    assert_eq!(inner.at_key("replaceText").as_str(), Some("new"));
}

#[test]
fn occurrences_changed_reads_first_reply() {
    let reply = obj(vec![(
        "replies",
        arr(vec![obj(vec![("replaceAllText", obj(vec![("occurrencesChanged", n(4))]))])]),
    )]);
    assert_eq!(occurrences_changed(&reply), 4);
    assert_eq!(occurrences_changed(&obj(vec![("replies", arr(vec![]))])), 0);
    assert_eq!(occurrences_changed(&obj(vec![])), 0);
}

#[test]
fn find_link_range_first_occurrence() {
    let doc = doc_with(vec![para_element(1, 13, "Hello world\n"), para_element(13, 26, "world again\n")]);
    assert!(link_range_valid(&doc, "world"));
    assert_eq!(find_link_range(&doc, "world").unwrap(), (7, 12));
    assert_eq!(find_link_range(&doc, "again").unwrap(), (19, 24));
    let err = find_link_range(&doc, "absent").unwrap_err();
    assert_eq!(err.message(), "Text not found in document: absent");
}

#[test]
fn link_request_shape() {
    let reqs = link_requests(7, 12, "https://example.com");
    let inner = at(reqs.at_idx(0), &["updateTextStyle"]);
    assert_eq!(at(inner, &["range", "startIndex"]).as_i64(), Some(7));
    assert_eq!(at(inner, &["range", "endIndex"]).as_i64(), Some(12));
    assert_eq!(at(inner, &["textStyle", "link", "url"]).as_str(), Some("https://example.com"));
    assert_eq!(inner.at_key("fields").as_str(), Some("link"));
}

#[test]
fn set_style_targets_matching_paragraphs() {
    let doc = doc_with(vec![
        para_element(1, 8, "Title\n"),
        para_element(8, 20, "Body text\n"),
        para_element(20, 30, "Title two\n"),
    ]);
    let reqs = set_style_requests(&doc, "Title", "HEADING_1").unwrap();
    let list = reqs.as_array().unwrap();
    assert_eq!(list.len(), 2);
    let first = at(&list[0], &["updateParagraphStyle"]);
    assert_eq!(at(first, &["range", "startIndex"]).as_i64(), Some(1));
    assert_eq!(at(first, &["range", "endIndex"]).as_i64(), Some(8));
    assert_eq!(at(first, &["paragraphStyle", "namedStyleType"]).as_str(), Some("HEADING_1"));
    assert_eq!(at(&list[1], &["updateParagraphStyle", "range", "startIndex"]).as_i64(), Some(20));

    let err = set_style_requests(&doc, "nowhere", "TITLE").unwrap_err();
    assert_eq!(err.message(), "No paragraphs found containing text: nowhere");
}

#[test]
fn table_at_and_read() {
    let doc = people_doc();
    let (start, _t) = table_at(&doc, 0).unwrap();
    assert_eq!(start, 10);
    let (rows, row_count, col_count) = table_read(&doc, 0).unwrap();
    assert_eq!(rows, vec![vec!["Name", "Age"], vec!["Alice", "30"]]);
    assert_eq!((row_count, col_count), (2, 2));
    let err = table_read(&doc, 3).unwrap_err();
    assert_eq!(err.message(), "Table index 3 out of range (document has 1 table(s))");
}

#[test]
fn table_list_summaries() {
    let doc = doc_with(vec![
        table(1, 20, vec![vec![cell(2, 5, "A\n"), cell(5, 8, "B\n")]]),
        para_element(20, 25, "mid\n"),
        table(25, 60, vec![vec![cell(26, 30, "X\n")], vec![cell(31, 35, "Y\n")]]),
    ]);
    let list = table_list(&doc);
    assert_eq!(list.len(), 2);
    assert_eq!((list[0].index, list[0].rows, list[0].cols), (0, 1, 2));
    assert_eq!(list[0].headers, vec!["A", "B"]);
    assert_eq!((list[1].index, list[1].rows, list[1].cols), (1, 2, 1));
    assert_eq!(list[1].headers, vec!["X"]);
}

#[test]
fn add_column_defaults_to_last_column() {
    let doc = people_doc();
    let (req, cols) = add_column_request(&doc, 0, None).unwrap();
    assert_eq!(cols, 2);
    let loc = at(req.at_idx(0), &["insertTableColumn", "tableCellLocation"]);
    assert_eq!(at(loc, &["tableStartLocation", "index"]).as_i64(), Some(10));
    assert_eq!(loc.at_key("columnIndex").as_i64(), Some(1));
    assert_eq!(loc.at_key("rowIndex").as_i64(), Some(0));
    assert!(matches!(at(req.at_idx(0), &["insertTableColumn", "insertRight"]), JsonValue::Bool(true)));

    let (req, _) = add_column_request(&doc, 0, Some(0)).unwrap();
    assert_eq!(at(req.at_idx(0), &["insertTableColumn", "tableCellLocation", "columnIndex"]).as_i64(), Some(0));
    assert!(add_column_request(&doc, 1, None).is_err());
}

#[test]
fn table_write_replaces_cell_text() {
    let doc = people_doc();
    assert!(cell_range_valid(&doc, 0, 1, 0));
    let reqs = table_write_requests(&doc, 0, 1, 0, "Bob").unwrap();
    let list = reqs.as_array().unwrap();
    assert_eq!(list.len(), 2);
    let range = at(&list[0], &["deleteContentRange", "range"]);
    assert_eq!(range.at_key("startIndex").as_i64(), Some(24));
    assert_eq!(range.at_key("endIndex").as_i64(), Some(29));
    let insert = at(&list[1], &["insertText"]);
    assert_eq!(insert.at_key("text").as_str(), Some("Bob"));
    assert_eq!(at(insert, &["location", "index"]).as_i64(), Some(24));

    let err = table_write_requests(&doc, 0, 4, 0, "x").unwrap_err();
    assert_eq!(err.message(), "Row 4 not found");
}

#[test]
fn table_write_into_empty_cell_only_inserts() {
    let doc = doc_with(vec![table(1, 10, vec![vec![cell(3, 4, "\n")]])]);
    let reqs = table_write_requests(&doc, 0, 0, 0, "new").unwrap();
    let list = reqs.as_array().unwrap();
    assert_eq!(list.len(), 1);
    assert_eq!(at(&list[0], &["insertText", "location", "index"]).as_i64(), Some(3));
}

#[test]
fn insert_row_after_last_by_default() {
    let doc = people_doc();
    let (req, after, count) = insert_row_request(&doc, 0, None).unwrap();
    assert_eq!((after, count), (1, 2));
    let loc = at(req.at_idx(0), &["insertTableRow", "tableCellLocation"]);
    assert_eq!(loc.at_key("rowIndex").as_i64(), Some(1));
    assert_eq!(at(loc, &["tableStartLocation", "index"]).as_i64(), Some(10));

    let err = insert_row_request(&doc, 0, Some(5)).unwrap_err();
    assert_eq!(err.message(), "Row index 5 out of range (table has 2 rows, max index is 1)");
}

#[test]
fn delete_row_and_its_errors() {
    let doc = people_doc();
    let (req, rows_after) = delete_row_request(&doc, 0, 1).unwrap();
    assert_eq!(rows_after, 1);
    let loc = at(req.at_idx(0), &["deleteTableRow", "tableCellLocation"]);
    assert_eq!(loc.at_key("rowIndex").as_i64(), Some(1));

    let err = delete_row_request(&doc, 0, 2).unwrap_err();
    assert_eq!(err.message(), "Row index 2 out of range (table has 2 rows, max index is 1)");

    let single = doc_with(vec![table(1, 10, vec![vec![cell(3, 5, "a\n")]])]);
    let err = delete_row_request(&single, 0, 0).unwrap_err();
    assert_eq!(err.message(), "Cannot delete the only row in a table");
}

#[test]
fn docs_commands_are_known() {
    assert!(matches!(DocsHelper::command("+write"), Some(DocsCommand::Write)));
    assert!(matches!(DocsHelper::command("+table-add-column"), Some(DocsCommand::TableAddColumn)));
    assert!(matches!(DocsHelper::command("+delete-table-row"), Some(DocsCommand::DeleteTableRow)));
    assert!(DocsHelper::command("+unknown").is_none());
}

/// A paragraph at `start` made of one run per text, the runs following each other.
fn paragraph_of_runs(start: i64, texts: &[&str]) -> JsonValue {
    let mut at = start;
    let mut elements = Vec::new();
    for t in texts {
        let end = at + t.chars().count() as i64;
        elements.push(obj(vec![
            ("textRun", obj(vec![("content", s(t))])),
            ("startIndex", n(at)),
            ("endIndex", n(end)),
        ]));
        at = end;
    }
    obj(vec![
        ("startIndex", n(start)),
        ("endIndex", n(at)),
        ("paragraph", obj(vec![("elements", arr(elements))])),
    ])
}

#[test]
fn link_text_may_span_runs() {
    let doc = doc_with(vec![paragraph_of_runs(1, &["ab", "cd\n"])]);
    assert!(link_range_valid(&doc, "bc"));
    assert_eq!(find_link_range(&doc, "bc").unwrap(), (2, 4));
    assert_eq!(find_link_range(&doc, "cd").unwrap(), (3, 5));
    let doc = doc_with(vec![paragraph_of_runs(10, &["x\u{e9}", "yz\n"])]);
    assert_eq!(find_link_range(&doc, "\u{e9}y").unwrap(), (11, 13));
}

#[test]
fn link_text_found_in_table_cell() {
    let doc = doc_with(vec![
        para_element(1, 5, "top\n"),
        table(5, 30, vec![vec![cell(7, 19, "inside cell\n")]]),
    ]);
    assert_eq!(find_link_range(&doc, "cell").unwrap(), (14, 18));
}

#[test]
fn set_style_reaches_paragraphs_in_table_cells() {
    let doc = doc_with(vec![
        para_element(1, 8, "Title\n"),
        table(8, 40, vec![vec![cell(10, 20, "Notes here\n"), cell(21, 30, "Other\n")]]),
    ]);
    let reqs = set_style_requests(&doc, "Notes", "HEADING_2").unwrap();
    let list = reqs.as_array().unwrap();
    assert_eq!(list.len(), 1);
    let range = at(&list[0], &["updateParagraphStyle", "range"]);
    assert_eq!(range.at_key("startIndex").as_i64(), Some(10));
    assert_eq!(range.at_key("endIndex").as_i64(), Some(20));
    let reqs = set_style_requests(&doc, "e", "TITLE").unwrap();
    assert_eq!(reqs.as_array().unwrap().len(), 3);
}
