use gws::a1::{col_index_to_letters, col_letters_to_index, parse_a1_range, parse_cell_ref};
use gws::discovery::{RestDescription, RestMethod, RestResource};
use gws::sheets::{
    append_values_from_json, build_append_request, build_read_request, parse_append_args,
    parse_hex_color, parse_read_args, rows_from_parses, AppendConfig, ReadConfig,
};

fn make_mock_doc() -> RestDescription {
    let methods = vec![
        ("append".to_string(), RestMethod { scopes: vec!["https://scope".to_string()] }),
        ("get".to_string(), RestMethod { scopes: vec!["https://scope".to_string()] }),
    ];
    let values_res = RestResource { methods, resources: Vec::new() };
    let spreadsheets_res =
        RestResource { methods: Vec::new(), resources: vec![("values".to_string(), values_res)] };
    RestDescription { resources: vec![("spreadsheets".to_string(), spreadsheets_res)] }
}

#[test]
fn test_col_letters_to_index() {
    assert_eq!(col_letters_to_index("A"), 0);
    assert_eq!(col_letters_to_index("B"), 1);
    assert_eq!(col_letters_to_index("Z"), 25);
    assert_eq!(col_letters_to_index("AA"), 26);
    assert_eq!(col_letters_to_index("AB"), 27);
    assert_eq!(col_letters_to_index("AZ"), 51);
    assert_eq!(col_letters_to_index("BA"), 52);
}

#[test]
fn test_col_index_to_letters() {
    assert_eq!(col_index_to_letters(0), "A");
    assert_eq!(col_index_to_letters(1), "B");
    assert_eq!(col_index_to_letters(25), "Z");
    assert_eq!(col_index_to_letters(26), "AA");
    assert_eq!(col_index_to_letters(27), "AB");
    assert_eq!(col_index_to_letters(51), "AZ");
    assert_eq!(col_index_to_letters(52), "BA");
}

#[test]
fn test_col_roundtrip() {
    for i in 0..200 {
        let letters = col_index_to_letters(i);
        assert_eq!(
            col_letters_to_index(&letters),
            i,
            "roundtrip failed for index {i} -> {letters}"
        );
    }
}

#[test]
fn test_parse_cell_ref() {
    let (col, row) = parse_cell_ref("A1").unwrap();
    assert_eq!(col, 0);
    assert_eq!(row, 0);

    let (col, row) = parse_cell_ref("B5").unwrap();
    assert_eq!(col, 1);
    assert_eq!(row, 4);

    let (col, row) = parse_cell_ref("AA10").unwrap();
    assert_eq!(col, 26);
    assert_eq!(row, 9);

    let (col, row) = parse_cell_ref("Z1").unwrap();
    assert_eq!(col, 25);
    assert_eq!(row, 0);
}

#[test]
fn test_parse_cell_ref_invalid() {
    assert!(parse_cell_ref("123").is_err());
    assert!(parse_cell_ref("").is_err());
}

#[test]
fn test_parse_a1_range_pair() {
    let (sc, sr, ec, er) = parse_a1_range("A1:C3").unwrap();
    assert_eq!((sc, sr, ec, er), (0, 0, 3, 3));
}

#[test]
fn test_parse_a1_range_single_cell() {
    let (sc, sr, ec, er) = parse_a1_range("B5").unwrap();
    assert_eq!((sc, sr, ec, er), (1, 4, 2, 5));
}

#[test]
fn test_parse_a1_range_with_sheet_prefix() {
    let (sc, sr, ec, er) = parse_a1_range("Sheet1!A1:F1").unwrap();
    assert_eq!((sc, sr, ec, er), (0, 0, 6, 1));
}

#[test]
fn test_parse_a1_range_wide() {
    let (sc, sr, ec, er) = parse_a1_range("A1:Z100").unwrap();
    assert_eq!((sc, sr, ec, er), (0, 0, 26, 100));
}

fn channel(v: u8) -> f64 {
    (v as f64) / 255.0
}

#[test]
fn test_parse_hex_color_basic() {
    let c = parse_hex_color("#445269").unwrap();
    // 0x44=68, 0x52=82, 0x69=105
    let r = channel(c.red);
    let g = channel(c.green);
    let b = channel(c.blue);
    assert!((r - 68.0 / 255.0).abs() < 0.001);
    assert!((g - 82.0 / 255.0).abs() < 0.001);
    assert!((b - 105.0 / 255.0).abs() < 0.001);
}

#[test]
fn test_parse_hex_color_white() {
    let c = parse_hex_color("#FFFFFF").unwrap();
    assert!((channel(c.red) - 1.0).abs() < 0.001);
    assert!((channel(c.green) - 1.0).abs() < 0.001);
    assert!((channel(c.blue) - 1.0).abs() < 0.001);
}

#[test]
fn test_parse_hex_color_black() {
    let c = parse_hex_color("#000000").unwrap();
    assert!(channel(c.red).abs() < 0.001);
    assert!(channel(c.green).abs() < 0.001);
    assert!(channel(c.blue).abs() < 0.001);
}

#[test]
fn test_parse_hex_color_no_hash() {
    let c = parse_hex_color("FF0000").unwrap();
    assert!((channel(c.red) - 1.0).abs() < 0.001);
    assert!(channel(c.green).abs() < 0.001);
    assert!(channel(c.blue).abs() < 0.001);
}

#[test]
fn test_parse_hex_color_invalid() {
    assert!(parse_hex_color("#GGG").is_err());
    assert!(parse_hex_color("#12345").is_err());
    assert!(parse_hex_color("").is_err());
}

#[test]
fn test_build_append_request() {
    let doc = make_mock_doc();
    let config = AppendConfig {
        spreadsheet_id: "123".to_string(),
        values: vec![vec!["a".to_string(), "b".to_string(), "c".to_string()]],
    };
    let (params, body, scopes) = build_append_request(&config, &doc).unwrap();

    assert_eq!(params.at_key("spreadsheetId").as_str(), Some("123"));
    assert_eq!(params.at_key("valueInputOption").as_str(), Some("USER_ENTERED"));
    let row = body.at_key("values").as_array().unwrap()[0].as_array().unwrap();
    assert_eq!(row[0].as_str(), Some("a"));
    assert_eq!(row[1].as_str(), Some("b"));
    assert_eq!(scopes[0], "https://scope");
}

#[test]
fn test_build_read_request() {
    let doc = make_mock_doc();
    let config = ReadConfig { spreadsheet_id: "123".to_string(), range: "A1:B2".to_string() };
    let (params, scopes) = build_read_request(&config, &doc).unwrap();

    assert_eq!(params.at_key("spreadsheetId").as_str(), Some("123"));
    assert_eq!(params.at_key("range").as_str(), Some("A1:B2"));
    assert_eq!(scopes[0], "https://scope");
}

#[test]
fn test_parse_append_args_values() {
    let config = parse_append_args("123", Some("a,b,c"), None);
    assert_eq!(config.spreadsheet_id, "123");
    assert_eq!(config.values, vec![vec!["a", "b", "c"]]);
}

#[test]
fn test_parse_append_args_json_single_row() {
    let config = parse_append_args("123", None, Some(r#"["a","b","c"]"#));
    assert_eq!(config.values, vec![vec!["a", "b", "c"]]);
}

#[test]
fn test_parse_append_args_json_multi_row() {
    let config = parse_append_args("123", None, Some(r#"[["Alice","100"],["Bob","200"]]"#));
    assert_eq!(config.values, vec![vec!["Alice", "100"], vec!["Bob", "200"]]);
}

#[test]
fn test_build_append_request_multi_row() {
    let doc = make_mock_doc();
    let config = AppendConfig {
        spreadsheet_id: "123".to_string(),
        values: vec![
            vec!["Alice".to_string(), "100".to_string()],
            vec!["Bob".to_string(), "200".to_string()],
        ],
    };
    let (_params, body, _scopes) = build_append_request(&config, &doc).unwrap();
    let values = body.at_key("values").as_array().unwrap();
    assert_eq!(values.len(), 2);
    let row0: Vec<&str> =
        values[0].as_array().unwrap().iter().map(|v| v.as_str().unwrap()).collect();
    let row1: Vec<&str> =
        values[1].as_array().unwrap().iter().map(|v| v.as_str().unwrap()).collect();
    assert_eq!(row0, vec!["Alice", "100"]);
    assert_eq!(row1, vec!["Bob", "200"]);
}

#[test]
fn test_parse_read_args() {
    let config = parse_read_args("123", "A1:B2");
    assert_eq!(config.spreadsheet_id, "123");
    assert_eq!(config.range, "A1:B2");
}

#[test]
fn append_values_invalid_json_gives_no_rows() {
    assert!(append_values_from_json("not json").is_none());
    let config = parse_append_args("123", Some("x"), Some("not json"));
    assert!(config.values.is_empty());
}

#[test]
fn rows_from_parses_prefers_rows() {
    let rows = vec![vec!["a".to_string()], vec!["b".to_string()]];
    let row = vec!["c".to_string(), "d".to_string()];
    assert_eq!(rows_from_parses(Some(rows.clone()), Some(row.clone())), Some(rows));
    assert_eq!(rows_from_parses(None, Some(row.clone())), Some(vec![row]));
    assert_eq!(rows_from_parses(None, None), None);
}
