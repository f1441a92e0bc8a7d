use gws::error::GwsError;
use gws::json::JsonValue;
use gws::sheets::{
    add_tab_requests, added_sheet_id, column_width_requests, conditional_format_requests,
    format_header_requests, freeze_counts, freeze_requests, grid_range, hex_color_valid,
    notes_from_response, notes_valid, sheet_id_for_tab, write_note_requests, SheetsCommand,
    SheetsHelper,
};

fn s(v: &str) -> JsonValue {
    JsonValue::Str(v.to_string())
}

fn n(v: i64) -> JsonValue {
    JsonValue::from_i64(v)
}

fn obj(entries: Vec<(&str, JsonValue)>) -> JsonValue {
    JsonValue::Object(entries.into_iter().map(|(k, v)| (k.to_string(), v)).collect())
}

fn arr(items: Vec<JsonValue>) -> JsonValue {
    JsonValue::Array(items)
}

fn at<'a>(v: &'a JsonValue, keys: &[&str]) -> &'a JsonValue {
    keys.iter().fold(v, |cur, k| cur.at_key(k))
}

fn sheet(title: &str, id: i64) -> JsonValue {
    obj(vec![("properties", obj(vec![("title", s(title)), ("sheetId", n(id))]))])
}

#[test]
fn sheet_id_found_by_title() {
    let val = obj(vec![("sheets", arr(vec![sheet("Sheet1", 0), sheet("Data", 42), sheet("Data", 7)]))]);
    assert_eq!(sheet_id_for_tab(&val, "Data").unwrap(), 42);
    assert_eq!(sheet_id_for_tab(&val, "Sheet1").unwrap(), 0);
    let err = sheet_id_for_tab(&val, "Missing").unwrap_err();
    assert_eq!(err.message(), "Tab 'Missing' not found");
    let err = sheet_id_for_tab(&obj(vec![]), "Data").unwrap_err();
    assert_eq!(err.message(), "No sheets found");
}

#[test]
fn add_tab_request_and_reply() {
    let reqs = add_tab_requests("Summary");
    assert_eq!(at(reqs.at_idx(0), &["addSheet", "properties", "title"]).as_str(), Some("Summary"));
    let reply = obj(vec![(
        "replies",
        arr(vec![obj(vec![("addSheet", obj(vec![("properties", obj(vec![("sheetId", n(99))]))]))])]),
    )]);
    assert_eq!(added_sheet_id(&reply), 99);
    assert_eq!(added_sheet_id(&obj(vec![])), 0);
}

#[test]
fn freeze_counts_need_one_of_them() {
    assert_eq!(freeze_counts(Some(1), None).unwrap(), (1, 0));
    assert_eq!(freeze_counts(None, Some(2)).unwrap(), (0, 2));
    match freeze_counts(None, Some(0)) {
        Err(GwsError::Validation(m)) => {
            assert_eq!(m, "At least one of --rows or --cols must be specified")
        }
        other => panic!("unexpected: {:?}", other),
    }
}

#[test]
fn freeze_request_shape() {
    let reqs = freeze_requests(5, 1, 2);
    let inner = at(reqs.at_idx(0), &["updateSheetProperties"]);
    assert_eq!(at(inner, &["properties", "sheetId"]).as_i64(), Some(5));
    assert_eq!(at(inner, &["properties", "gridProperties", "frozenRowCount"]).as_i64(), Some(1));
    assert_eq!(at(inner, &["properties", "gridProperties", "frozenColumnCount"]).as_i64(), Some(2));
    assert_eq!(
        inner.at_key("fields").as_str(),
        Some("gridProperties.frozenRowCount,gridProperties.frozenColumnCount")
    );
}

#[test]
fn column_width_request_shape() {
    let reqs = column_width_requests(3, 2, 150);
    let inner = at(reqs.at_idx(0), &["updateDimensionProperties"]);
    assert_eq!(at(inner, &["range", "dimension"]).as_str(), Some("COLUMNS"));
    assert_eq!(at(inner, &["range", "startIndex"]).as_i64(), Some(2));
    assert_eq!(at(inner, &["range", "endIndex"]).as_i64(), Some(3));
    assert_eq!(at(inner, &["properties", "pixelSize"]).as_i64(), Some(150));
}

#[test]
fn grid_range_fields() {
    let g = grid_range(7, 0, 1, 2, 5);
    assert_eq!(g.at_key("sheetId").as_i64(), Some(7));
    assert_eq!(g.at_key("startRowIndex").as_i64(), Some(0));
    assert_eq!(g.at_key("endRowIndex").as_i64(), Some(1));
    assert_eq!(g.at_key("startColumnIndex").as_i64(), Some(2));
    assert_eq!(g.at_key("endColumnIndex").as_i64(), Some(5));
}

#[test]
fn write_note_targets_one_cell() {
    let reqs = write_note_requests(4, 1, 2, "check this");
    let inner = at(reqs.at_idx(0), &["updateCells"]);
    let cell = inner.at_key("rows").at_idx(0).at_key("values").at_idx(0);
    assert_eq!(cell.at_key("note").as_str(), Some("check this"));
    assert_eq!(inner.at_key("fields").as_str(), Some("note"));
    let range = inner.at_key("range");
    assert_eq!(range.at_key("startRowIndex").as_i64(), Some(2));
    assert_eq!(range.at_key("endRowIndex").as_i64(), Some(3));
    assert_eq!(range.at_key("startColumnIndex").as_i64(), Some(1));
    assert_eq!(range.at_key("endColumnIndex").as_i64(), Some(2));
}

#[test]
fn format_header_request_shape() {
    let reqs = format_header_requests(9, 0, 0, 3, 1, s("BG"), s("FG"));
    let inner = at(reqs.at_idx(0), &["repeatCell"]);
    assert_eq!(at(inner, &["range", "sheetId"]).as_i64(), Some(9));
    assert_eq!(at(inner, &["range", "endRowIndex"]).as_i64(), Some(1));
    assert_eq!(at(inner, &["range", "endColumnIndex"]).as_i64(), Some(3));
    let fmt = at(inner, &["cell", "userEnteredFormat"]);
    assert_eq!(fmt.at_key("backgroundColor").as_str(), Some("BG"));
    assert_eq!(at(fmt, &["textFormat", "foregroundColor"]).as_str(), Some("FG"));
    assert!(matches!(at(fmt, &["textFormat", "bold"]), JsonValue::Bool(true)));
    assert_eq!(fmt.at_key("horizontalAlignment").as_str(), Some("CENTER"));
    assert_eq!(fmt.at_key("wrapStrategy").as_str(), Some("WRAP"));
}

#[test]
fn conditional_format_request_shape() {
    let reqs = conditional_format_requests(9, 1, 2, 4, 10, "Done", s("BG"));
    let inner = at(reqs.at_idx(0), &["addConditionalFormatRule"]);
    assert_eq!(inner.at_key("index").as_i64(), Some(0));
    let range = at(inner, &["rule", "ranges"]).at_idx(0);
    assert_eq!(range.at_key("startColumnIndex").as_i64(), Some(1));
    assert_eq!(range.at_key("startRowIndex").as_i64(), Some(2));
    let cond = at(inner, &["rule", "booleanRule", "condition"]);
    assert_eq!(cond.at_key("type").as_str(), Some("TEXT_EQ"));
    assert_eq!(cond.at_key("values").at_idx(0).at_key("userEnteredValue").as_str(), Some("Done"));
    let fmt = at(inner, &["rule", "booleanRule", "format"]);
    assert_eq!(fmt.at_key("backgroundColor").as_str(), Some("BG"));
}

fn notes_reply(rows: Vec<Vec<JsonValue>>) -> JsonValue {
    let rows = rows.into_iter().map(|cells| obj(vec![("values", arr(cells))])).collect();
    obj(vec![(
        "sheets",
        arr(vec![obj(vec![("data", arr(vec![obj(vec![("rowData", arr(rows))])]))])]),
    )])
}

#[test]
fn notes_addressed_from_range_start() {
    let val = notes_reply(vec![
        vec![obj(vec![("note", s("first"))]), obj(vec![])],
        vec![obj(vec![("note", s(""))]), obj(vec![("note", s("second"))])],
    ]);
    assert!(notes_valid("Sheet1!B3:D9", &val));
    let notes = notes_from_response("Sheet1!B3:D9", &val);
    assert_eq!(
        notes,
        vec![("B3".to_string(), "first".to_string()), ("C4".to_string(), "second".to_string())]
    );
    let notes = notes_from_response("Sheet1!1:5", &val);
    assert_eq!(notes[0].0, "A1");
    assert_eq!(notes[1].0, "B2");
}

#[test]
fn notes_row_zero_is_refused_by_checker() {
    let val = notes_reply(vec![vec![obj(vec![("note", s("x"))])]]);
    assert!(!notes_valid("A0:B2", &val));
}

#[test]
fn hex_color_checker() {
    assert!(hex_color_valid("#445269"));
    assert!(hex_color_valid("FF0000"));
    assert!(hex_color_valid("#12345"));
    // six bytes, but the second channel would start inside a character
    assert!(!hex_color_valid("a\u{e9}bbb"));
}

#[test]
fn sheets_commands_are_known() {
    assert!(matches!(SheetsHelper::command("+append"), Some(SheetsCommand::Append)));
    assert!(matches!(SheetsHelper::command("+read-notes"), Some(SheetsCommand::ReadNotes)));
    assert!(matches!(SheetsHelper::command("+write-note"), Some(SheetsCommand::WriteNote)));
    assert!(SheetsHelper::command("+nope").is_none());
}
