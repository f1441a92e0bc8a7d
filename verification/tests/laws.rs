use gws::a1::{col_index_to_letters, col_letters_to_index, parse_a1_range, parse_cell_ref};
use gws::docs::{extract_cell_text, find_table_start_index, find_tables, get_table_row_count, read_table};
use gws::json::JsonValue;
use gws::sheets::{notes_from_response, parse_hex_color};

fn s(v: &str) -> JsonValue {
    JsonValue::Str(v.to_string())
}

fn n(v: i64) -> JsonValue {
    JsonValue::from_i64(v)
}

fn obj(entries: Vec<(&str, JsonValue)>) -> JsonValue {
    JsonValue::Object(entries.into_iter().map(|(k, v)| (k.to_string(), v)).collect())
}

fn arr(items: Vec<JsonValue>) -> JsonValue {
    JsonValue::Array(items)
}

#[test]
fn sheet_prefix_is_ignored() {
    let plain = parse_a1_range("B2:C4").unwrap();
    assert_eq!(parse_a1_range("My Sheet!B2:C4").unwrap(), plain);
    assert_eq!(parse_a1_range("a!b!B2:C4").unwrap(), plain);
    assert_eq!(
        parse_a1_range("Data!Q").unwrap_err().message(),
        parse_a1_range("Q").unwrap_err().message()
    );
}

#[test]
fn single_cell_and_pair_ranges_follow_cell_refs() {
    let (c, r) = parse_cell_ref("D7").unwrap();
    assert_eq!(parse_a1_range("D7").unwrap(), (c, r, c + 1, r + 1));
    let (sc, sr) = parse_cell_ref("B2").unwrap();
    let (ec, er) = parse_cell_ref("AA10").unwrap();
    assert_eq!(parse_a1_range("B2:AA10").unwrap(), (sc, sr, ec + 1, er + 1));
    assert_eq!(
        parse_a1_range("B2:x").unwrap_err().message(),
        parse_cell_ref("x").unwrap_err().message()
    );
}

#[test]
fn leading_hash_is_optional() {
    let a = parse_hex_color("#1a2B3c").unwrap();
    let b = parse_hex_color("1a2B3c").unwrap();
    assert_eq!((a.red, a.green, a.blue), (b.red, b.green, b.blue));
    assert_eq!((a.red, a.green, a.blue), (0x1a, 0x2b, 0x3c));
    assert_eq!(
        parse_hex_color("#12").unwrap_err().message(),
        parse_hex_color("12").unwrap_err().message()
    );
}

#[test]
fn column_letters_round_trip() {
    for i in [0usize, 25, 26, 701, 702, 18277, 18278] {
        assert_eq!(col_letters_to_index(&col_index_to_letters(i)), i);
    }
    assert_eq!(col_index_to_letters(col_letters_to_index("xfd")), "XFD");
}

#[test]
fn cell_text_never_ends_in_newline() {
    let cell = obj(vec![(
        "content",
        arr(vec![obj(vec![(
            "paragraph",
            obj(vec![("elements", arr(vec![obj(vec![("textRun", obj(vec![("content", s("a\n\n\n"))]))])]))]),
        )])]),
    )]);
    assert_eq!(extract_cell_text(&cell), "a");
}

fn table_with_rows(start: i64, rows: usize) -> JsonValue {
    let rows = (0..rows).map(|_| obj(vec![("tableCells", arr(vec![]))])).collect();
    obj(vec![("startIndex", n(start)), ("table", obj(vec![("tableRows", arr(rows))]))])
}

#[test]
fn table_lookups_agree_with_find_tables() {
    let doc = obj(vec![(
        "body",
        obj(vec![(
            "content",
            arr(vec![table_with_rows(3, 2), obj(vec![("paragraph", obj(vec![]))]), table_with_rows(40, 5)]),
        )]),
    )]);
    let tables = find_tables(&doc);
    assert_eq!(tables.len(), 2);
    for i in 0..tables.len() {
        assert_eq!(find_table_start_index(&doc, i).unwrap(), tables[i].0);
        assert_eq!(get_table_row_count(&doc, i).unwrap(), read_table(tables[i].1).1);
    }
}

#[test]
fn note_addresses_read_back_as_cells() {
    let cells: Vec<JsonValue> = (0..30).map(|_| obj(vec![("note", s("x"))])).collect();
    let val = obj(vec![(
        "sheets",
        arr(vec![obj(vec![(
            "data",
            arr(vec![obj(vec![("rowData", arr(vec![obj(vec![("values", arr(cells))])]))])]),
        )])]),
    )]);
    let notes = notes_from_response("Sheet1!Y12", &val);
    assert_eq!(notes.len(), 30);
    assert_eq!(notes[2].0, "AA12");
    for (i, (addr, _)) in notes.iter().enumerate() {
        assert_eq!(parse_cell_ref(addr).unwrap(), (24 + i, 11));
    }
}
