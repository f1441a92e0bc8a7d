//! Sheets helpers: colours, argument handling, request bodies and responses.
use vstd::prelude::*;
use vstd::utf8::{encode_utf8, is_char_boundary};
use crate::a1::{
    cell_ref_ok, cell_ref_spec, col_index_to_letters, col_letters_ok, col_letters_to_index,
    col_letters_valid, col_value, is_ascii_letter, is_upper_letter, lemma_col_index_roundtrip,
    lemma_letters_of_shape, letters_of,
};
use vstd::utf8::{decode_utf8, encode_utf8_decode_utf8, is_ascii_chars, is_ascii_chars_encode_utf8};
use crate::discovery::{method_scopes, method_scopes_spec, RestDescription};
use crate::error::{concat3, concat_msg, other_outcome, GwsError};
use crate::json::{
    arr1, entry, entry_views, jo1, jo2, jo3, json_bool, lemma_jo1_at, lemma_jo2_at, lemma_jo3_at,
    lemma_obj_lookup_at, json_int, obj1, obj2, obj3, views, Json,
    JsonValue,
};
use crate::text::{
    after_last, ascii_upper_spec, chars_of, copy_strings, decimal_text, is_digit_spec, lemma_ascii_len,
    lemma_decimal_text, lemma_encode_utf8_split, lemma_first_digit_concat, parse_usize, same_text,
    split_last, split_on, split_text, string_from_chars, string_grid, string_views, usize_from_str,
    usize_text,
};

verus! {

/// `s` with every leading `#` removed (`str::trim_start_matches('#')`).
pub open spec fn strip_hashes(s: Seq<char>) -> Seq<char>
    decreases s.len(),
{
    if s.len() > 0 && s[0] == '#' {
        strip_hashes(s.drop_first())
    } else {
        s
    }
}

/// The value of an ASCII hexadecimal digit given as a byte.
pub open spec fn hex_digit_value(b: u8) -> Option<int> {
    if 48 <= b <= 57 {
        Some(b - 48)
    } else if 97 <= b <= 102 {
        Some(b - 87)
    } else if 65 <= b <= 70 {
        Some(b - 55)
    } else {
        None
    }
}

/// What `u8::from_str_radix(_, 16)` gives for the two-byte string `b0 b1`:
/// an optional `+` followed by hexadecimal digits.
pub open spec fn hex_pair(b0: u8, b1: u8) -> Option<u8> {
    if b0 == 43 {
        match hex_digit_value(b1) {
            Some(v) => Some(v as u8),
            None => None,
        }
    } else {
        match (hex_digit_value(b0), hex_digit_value(b1)) {
            (Some(x), Some(y)) => Some((x * 16 + y) as u8),
            _ => None,
        }
    }
}

/// A colour given by its red, green and blue channels.
#[derive(Debug)]
pub struct RgbColor {
    pub red: u8,
    pub green: u8,
    pub blue: u8,
}

/// The colour strings that `parse_hex_color` reads without a panic in the
/// command: the channels are cut at byte offsets 2 and 4, which must fall on
/// character boundaries when they are reached.
pub open spec fn hex_color_ok(s: Seq<char>) -> bool {
    let b = encode_utf8(strip_hashes(s));
    b.len() == 6 ==> {
        &&& is_char_boundary(b, 2)
        &&& hex_pair(b[0], b[1]) is Some ==> is_char_boundary(b, 4)
    }
}

/// What `parse_hex_color` gives: the three channels, or the message of the error.
pub open spec fn hex_color_spec(s: Seq<char>) -> Result<(u8, u8, u8), Seq<char>> {
    let h = strip_hashes(s);
    let b = encode_utf8(h);
    if b.len() != 6 {
        Err("Invalid hex color (expected 6 hex digits): #"@ + h)
    } else {
        match hex_pair(b[0], b[1]) {
            None => Err("Invalid hex red channel"@),
            Some(r) => match hex_pair(b[2], b[3]) {
                None => Err("Invalid hex green channel"@),
                Some(g) => match hex_pair(b[4], b[5]) {
                    None => Err("Invalid hex blue channel"@),
                    Some(bl) => Ok((r, g, bl)),
                },
            },
        }
    }
}

/// A leading `#` is optional: `#h` reads as `h` does, and parses without a
/// panic exactly when `h` does.
pub proof fn lemma_hash_prefix_optional(h: Seq<char>)
    ensures
        hex_color_spec(seq!['#'] + h) == hex_color_spec(h),
        hex_color_ok(seq!['#'] + h) == hex_color_ok(h),
{
    assert((seq!['#'] + h).drop_first() =~= h);
}

/// An ASCII hexadecimal digit: `0`-`9`, `a`-`f` or `A`-`F`.
pub open spec fn is_hex_char(c: char) -> bool {
    ('0' <= c && c <= '9') || ('a' <= c && c <= 'f') || ('A' <= c && c <= 'F')
}

/// The value of a hexadecimal digit: `0`-`9` are 0 to 9, `a` and `A` are 10,
/// and so on up to `f` and `F`, which are 15.
pub open spec fn hex_char_value(c: char) -> int {
    if '0' <= c && c <= '9' {
        c as int - '0' as int
    } else if 'a' <= c && c <= 'f' {
        c as int - 'a' as int + 10
    } else {
        c as int - 'A' as int + 10
    }
}

/// `s` with its ASCII lower-case letters made upper-case.
pub open spec fn upper_text(s: Seq<char>) -> Seq<char> {
    s.map_values(|c: char| ascii_upper_spec(c) as char)
}

/// A colour of six hexadecimal digits, in either case and with or without a
/// leading `#`, parses to the channels that the digit pairs spell in base 16.
pub proof fn lemma_hex_colour_channels(s: Seq<char>)
    requires
        s.len() == 6,
        forall|i: int| 0 <= i < 6 ==> is_hex_char(#[trigger] s[i]),
    ensures
        hex_color_spec(s) == Ok::<(u8, u8, u8), Seq<char>>(
            (
                (16 * hex_char_value(s[0]) + hex_char_value(s[1])) as u8,
                (16 * hex_char_value(s[2]) + hex_char_value(s[3])) as u8,
                (16 * hex_char_value(s[4]) + hex_char_value(s[5])) as u8,
            ),
        ),
        hex_color_spec(seq!['#'] + s) == hex_color_spec(s),
{
    lemma_hash_prefix_optional(s);
    assert(s[0] != '#');
    assert(strip_hashes(s) == s);
    assert(is_ascii_chars(s)) by {
        assert forall|i: int| 0 <= i < s.len() implies '\0' <= #[trigger] s[i] <= '\u{7f}' by {
            assert(is_hex_char(s[i]));
        }
    }
    is_ascii_chars_encode_utf8(s);
    let b = encode_utf8(s);
    assert forall|i: int| 0 <= i < 6 implies #[trigger] hex_digit_value(b[i]) == Some(
        hex_char_value(s[i]),
    ) && b[i] != 43 by {
        assert(is_hex_char(s[i]));
        assert(b[i] == s[i] as u8);
    }
    assert(hex_digit_value(b[0]) == Some(hex_char_value(s[0])));
    assert(hex_digit_value(b[1]) == Some(hex_char_value(s[1])));
    assert(hex_digit_value(b[2]) == Some(hex_char_value(s[2])));
    assert(hex_digit_value(b[3]) == Some(hex_char_value(s[3])));
    assert(hex_digit_value(b[4]) == Some(hex_char_value(s[4])));
    assert(hex_digit_value(b[5]) == Some(hex_char_value(s[5])));
}

/// Case does not matter in a colour: six hexadecimal digits parse to the
/// same channels as their upper-case form.
pub proof fn lemma_hex_colour_case_insensitive(s: Seq<char>)
    requires
        s.len() == 6,
        forall|i: int| 0 <= i < 6 ==> is_hex_char(#[trigger] s[i]),
    ensures
        hex_color_spec(s) == hex_color_spec(upper_text(s)),
{
    let u = upper_text(s);
    assert forall|i: int| 0 <= i < 6 implies is_hex_char(#[trigger] u[i]) && hex_char_value(u[i])
        == hex_char_value(s[i]) by {
        assert(is_hex_char(s[i]));
        assert(u[i] == ascii_upper_spec(s[i]) as char);
    }
    lemma_hex_colour_channels(s);
    lemma_hex_colour_channels(u);
    assert(hex_char_value(u[0]) == hex_char_value(s[0]));
    assert(hex_char_value(u[1]) == hex_char_value(s[1]));
    assert(hex_char_value(u[2]) == hex_char_value(s[2]));
    assert(hex_char_value(u[3]) == hex_char_value(s[3]));
    assert(hex_char_value(u[4]) == hex_char_value(s[4]));
    assert(hex_char_value(u[5]) == hex_char_value(s[5]));
}

fn hex_digit(b: u8) -> (r: Option<u8>)
    ensures
        match r {
            Some(v) => hex_digit_value(b) == Some(v as int),
            None => hex_digit_value(b) is None,
        },
{
    if 48 <= b && b <= 57 {
        Some(b - 48)
    } else if 97 <= b && b <= 102 {
        Some(b - 87)
    } else if 65 <= b && b <= 70 {
        Some(b - 55)
    } else {
        None
    }
}

fn parse_hex_pair(b0: u8, b1: u8) -> (r: Option<u8>)
    ensures
        r == hex_pair(b0, b1),
{
    if b0 == 43 {
        hex_digit(b1)
    } else {
        match (hex_digit(b0), hex_digit(b1)) {
            (Some(x), Some(y)) => Some(x * 16 + y),
            _ => None,
        }
    }
}

/// Parses a colour such as `#445269` (leading `#` optional) into its channels.
pub fn parse_hex_color(hex: &str) -> (r: Result<RgbColor, GwsError>)
    requires
        hex_color_ok(hex@),
    ensures
        other_outcome(
            match r {
                Ok(c) => Ok((c.red, c.green, c.blue)),
                Err(e) => Err(e),
            },
            hex_color_spec(hex@),
        ),
{
    let cs = chars_of(hex);
    let mut i: usize = 0;
    assert(cs@.skip(0) =~= cs@);
    while i < cs.len() && cs[i] == '#'
        invariant
            i <= cs.len(),
            cs@ == hex@,
            strip_hashes(hex@) == strip_hashes(cs@.skip(i as int)),
        decreases cs.len() - i,
    {
        assert(cs@.skip(i as int).drop_first() =~= cs@.skip(i + 1));
        i = i + 1;
    }
    let mut rest: Vec<char> = Vec::new();
    let mut k: usize = i;
    while k < cs.len()
        invariant
            i <= k <= cs.len(),
            rest@ == cs@.subrange(i as int, k as int),
        decreases cs.len() - k,
    {
        rest.push(cs[k]);
        k = k + 1;
    }
    assert(rest@ =~= cs@.skip(i as int));
    assert(strip_hashes(rest@) == rest@);
    let trimmed = string_from_chars(rest.as_slice());
    let b = trimmed.as_str().as_bytes();
    if b.len() != 6 {
        let msg = concat_msg("Invalid hex color (expected 6 hex digits): #", trimmed.as_str());
        return Err(GwsError::Other(msg));
    }
    let red = match parse_hex_pair(b[0], b[1]) {
        Some(v) => v,
        None => {
            return Err(GwsError::Other(String::from_str("Invalid hex red channel")));
        },
    };
    let green = match parse_hex_pair(b[2], b[3]) {
        Some(v) => v,
        None => {
            return Err(GwsError::Other(String::from_str("Invalid hex green channel")));
        },
    };
    let blue = match parse_hex_pair(b[4], b[5]) {
        Some(v) => v,
        None => {
            return Err(GwsError::Other(String::from_str("Invalid hex blue channel")));
        },
    };
    Ok(RgbColor { red, green, blue })
}

/// What `serde_json::from_str::<Vec<Vec<String>>>` reads from a text.
pub uninterp spec fn json_string_rows(text: Seq<char>) -> Option<Seq<Seq<Seq<char>>>>;

/// What `serde_json::from_str::<Vec<String>>` reads from a text.
pub uninterp spec fn json_string_row(text: Seq<char>) -> Option<Seq<Seq<char>>>;

/// Reads a JSON array of arrays of strings.
///
/// Trusted: `serde_json::from_str::<Vec<Vec<String>>>`; its result is named
/// `json_string_rows` of the text, `None` standing for its error.
#[verifier::external_body]
fn parse_json_rows(text: &str) -> (r: Option<Vec<Vec<String>>>)
    ensures
        match r {
            Some(v) => json_string_rows(text@) == Some(string_grid(v@)),
            None => json_string_rows(text@) is None,
        },
{
    serde_json::from_str::<Vec<Vec<String>>>(text).ok()
}

/// Reads a JSON array of strings.
///
/// Trusted: `serde_json::from_str::<Vec<String>>`; its result is named
/// `json_string_row` of the text, `None` standing for its error.
#[verifier::external_body]
fn parse_json_row(text: &str) -> (r: Option<Vec<String>>)
    ensures
        match r {
            Some(v) => json_string_row(text@) == Some(string_views(v@)),
            None => json_string_row(text@) is None,
        },
{
    serde_json::from_str::<Vec<String>>(text).ok()
}

/// The Sheets helper's subcommands.
#[derive(Debug)]
pub struct SheetsHelper;

/// Configuration for appending values to a spreadsheet: the parsed arguments
/// of the `+append` subcommand.
#[derive(Debug)]
pub struct AppendConfig {
    /// The ID of the spreadsheet to append to.
    pub spreadsheet_id: String,
    /// The rows to append, each inner `Vec` one row.
    pub values: Vec<Vec<String>>,
}

/// Configuration for reading values from a spreadsheet.
#[derive(Debug)]
pub struct ReadConfig {
    pub spreadsheet_id: String,
    /// A1 notation range (e.g. `Sheet1!A1:B2`).
    pub range: String,
}

/// The rows of `--json-values` from its two readings: the array of arrays
/// when the text is one, else the flat array as one row, else none.
pub open spec fn rows_choice(
    rows: Option<Seq<Seq<Seq<char>>>>,
    row: Option<Seq<Seq<char>>>,
) -> Option<Seq<Seq<Seq<char>>>> {
    match rows {
        Some(rows) => Some(rows),
        None => match row {
            Some(row) => Some(seq![row]),
            None => None,
        },
    }
}

/// The rows that `--json-values` gives: an array of arrays of strings, else
/// a flat array of strings as one row, else no rows (the text is invalid).
pub open spec fn json_values_rows(text: Seq<char>) -> Option<Seq<Seq<Seq<char>>>> {
    rows_choice(json_string_rows(text), json_string_row(text))
}

/// The rows of an append: `--json-values` when given (no rows when it is
/// invalid), else the comma-separated `--values` as one row, else no rows.
pub open spec fn append_values_spec(values: Option<Seq<char>>, json_values: Option<Seq<char>>) -> Seq<Seq<Seq<char>>> {
    match json_values {
        Some(j) => match json_values_rows(j) {
            Some(rows) => rows,
            None => Seq::empty(),
        },
        None => match values {
            Some(v) => seq![split_on(v, ',')],
            None => Seq::empty(),
        },
    }
}

/// Chooses the rows of `--json-values` from what its two readings gave: the
/// array of arrays, else the flat array as one row, else none.
pub fn rows_from_parses(rows: Option<Vec<Vec<String>>>, row: Option<Vec<String>>) -> (r: Option<Vec<Vec<String>>>)
    ensures
        match r {
            Some(v) => rows_choice(
                match rows {
                    Some(g) => Some(string_grid(g@)),
                    None => None,
                },
                match row {
                    Some(x) => Some(string_views(x@)),
                    None => None,
                },
            ) == Some(string_grid(v@)),
            None => rows is None && row is None,
        },
{
    match rows {
        Some(parsed) => Some(parsed),
        None => match row {
            Some(parsed) => {
                let ghost one = string_views(parsed@);
                let mut out: Vec<Vec<String>> = Vec::new();
                out.push(parsed);
                assert(string_grid(out@) =~= seq![one]);
                Some(out)
            },
            None => None,
        },
    }
}

/// Reads `--json-values`: rows when the text is an array of arrays of strings
/// or an array of strings, `None` when it is neither (the command then warns).
pub fn append_values_from_json(json_str: &str) -> (r: Option<Vec<Vec<String>>>)
    ensures
        match r {
            Some(v) => json_values_rows(json_str@) == Some(string_grid(v@)),
            None => json_values_rows(json_str@) is None,
        },
{
    let rows = parse_json_rows(json_str);
    let row = if rows.is_some() {
        None
    } else {
        parse_json_row(json_str)
    };
    rows_from_parses(rows, row)
}

/// Parses the arguments of `+append`: `--json-values` (one or more rows) takes
/// precedence over `--values` (one comma-separated row).
pub fn parse_append_args(spreadsheet: &str, values: Option<&str>, json_values: Option<&str>) -> (r: AppendConfig)
    ensures
        r.spreadsheet_id@ == spreadsheet@,
        string_grid(r.values@) == append_values_spec(
            match values {
                Some(v) => Some(v@),
                None => None,
            },
            match json_values {
                Some(j) => Some(j@),
                None => None,
            },
        ),
{
    let rows: Vec<Vec<String>> = match json_values {
        Some(json_str) => match append_values_from_json(json_str) {
            Some(rows) => rows,
            None => {
                let empty: Vec<Vec<String>> = Vec::new();
                assert(string_grid(empty@) =~= Seq::<Seq<Seq<char>>>::empty());
                empty
            },
        },
        None => match values {
            Some(values_str) => {
                let row = split_text(values_str, ',');
                let ghost rv = string_views(row@);
                let mut rows: Vec<Vec<String>> = Vec::new();
                rows.push(row);
                assert(string_grid(rows@) =~= seq![rv]);
                rows
            },
            None => {
                let empty: Vec<Vec<String>> = Vec::new();
                assert(string_grid(empty@) =~= Seq::<Seq<Seq<char>>>::empty());
                empty
            },
        },
    };
    AppendConfig { spreadsheet_id: String::from_str(spreadsheet), values: rows }
}

/// Parses the arguments of `+read`.
pub fn parse_read_args(spreadsheet: &str, range: &str) -> (r: ReadConfig)
    ensures
        r.spreadsheet_id@ == spreadsheet@,
        r.range@ == range@,
{
    ReadConfig { spreadsheet_id: String::from_str(spreadsheet), range: String::from_str(range) }
}

/// A JSON array of strings.
pub open spec fn strings_json(row: Seq<Seq<char>>) -> Json {
    Json::Array(Seq::new(row.len(), |j: int| Json::Str(row[j])))
}

/// A JSON array of rows, each an array of strings.
pub open spec fn rows_json(rows: Seq<Seq<Seq<char>>>) -> Json {
    Json::Array(Seq::new(rows.len(), |i: int| strings_json(rows[i])))
}

fn strings_to_json(row: &Vec<String>) -> (r: JsonValue)
    ensures
        r@ == strings_json(string_views(row@)),
{
    let mut items: Vec<JsonValue> = Vec::new();
    let mut j: usize = 0;
    while j < row.len()
        invariant
            j <= row.len(),
            items@.len() == j,
            forall|k: int| 0 <= k < j ==> (#[trigger] items@[k])@ == Json::Str(row@[k]@),
        decreases row.len() - j,
    {
        items.push(JsonValue::text(row[j].as_str()));
        j = j + 1;
    }
    let r = JsonValue::array(items);
    assert(views(items@) =~= strings_json(string_views(row@))->Array_0);
    r
}

fn rows_to_json(rows: &Vec<Vec<String>>) -> (r: JsonValue)
    ensures
        r@ == rows_json(string_grid(rows@)),
{
    let mut items: Vec<JsonValue> = Vec::new();
    let mut i: usize = 0;
    while i < rows.len()
        invariant
            i <= rows.len(),
            items@.len() == i,
            forall|k: int| 0 <= k < i ==> (#[trigger] items@[k])@ == strings_json(string_views(rows@[k]@)),
        decreases rows.len() - i,
    {
        items.push(strings_to_json(&rows[i]));
        i = i + 1;
    }
    let r = JsonValue::array(items);
    assert(views(items@) =~= rows_json(string_grid(rows@))->Array_0);
    r
}

/// The query parameters of an append: the spreadsheet, range `A1`, and
/// user-entered value input.
pub open spec fn append_params_spec(spreadsheet_id: Seq<char>) -> Json {
    Json::Object(
        seq![
            ("spreadsheetId"@, Json::Str(spreadsheet_id)),
            ("range"@, Json::Str("A1"@)),
            ("valueInputOption"@, Json::Str("USER_ENTERED"@)),
        ],
    )
}

/// An append goes to spreadsheet `spreadsheet_id` at `A1`, with values read
/// as if typed by a user, and sends every cell of every row in its place:
/// row `i`, cell `j` of the body is the `j`-th value of the `i`-th row.
pub proof fn lemma_append_request_fields(spreadsheet_id: Seq<char>, rows: Seq<Seq<Seq<char>>>)
    ensures
        append_params_spec(spreadsheet_id).at("spreadsheetId"@) == Json::Str(spreadsheet_id),
        append_params_spec(spreadsheet_id).at("range"@) == Json::Str("A1"@),
        append_params_spec(spreadsheet_id).at("valueInputOption"@) == Json::Str("USER_ENTERED"@),
        rows_json(rows).as_array() matches Some(rs) && rs.len() == rows.len(),
        forall|i: int, j: int|
            0 <= i < rows.len() && 0 <= j < rows[i].len() ==> #[trigger] rows_json(rows).at_index(
                i,
            ).at_index(j) == Json::Str(rows[i][j]),
        forall|i: int|
            0 <= i < rows.len() ==> ((#[trigger] rows_json(rows).at_index(i)).as_array() matches Some(
                cs,
            ) && cs.len() == rows[i].len()),
{
    reveal_strlit("spreadsheetId");
    reveal_strlit("range");
    reveal_strlit("valueInputOption");
    let e = append_params_spec(spreadsheet_id)->Object_0;
    assert(e[0].0.len() == 13 && e[1].0.len() == 5 && e[2].0.len() == 16);
    lemma_obj_lookup_at(e, 0);
    lemma_obj_lookup_at(e, 1);
    lemma_obj_lookup_at(e, 2);
}

/// Builds the `spreadsheets.values.append` call: query parameters, body
/// `{"values": rows}`, and the method's scopes from the discovery document.
pub fn build_append_request(config: &AppendConfig, doc: &RestDescription) -> (r: Result<(JsonValue, JsonValue, Vec<String>), GwsError>)
    ensures
        match (r, method_scopes_spec(*doc, "spreadsheets"@, Some("values"@), "append"@)) {
            (Ok((params, body, scopes)), Ok(s)) => {
                &&& params@ == append_params_spec(config.spreadsheet_id@)
                &&& body@ == Json::Object(seq![("values"@, rows_json(string_grid(config.values@)))])
                &&& string_views(scopes@) == s
            },
            (Err(GwsError::Discovery(m)), Err(t)) => m@ == t,
            _ => false,
        },
{
    proof {
        reveal_strlit("spreadsheets");
        reveal_strlit("values");
        reveal_strlit(".");
        reveal_strlit("spreadsheets.values");
        assert("spreadsheets.values"@ =~= "spreadsheets"@ + "."@ + "values"@);
    }
    let scopes = match method_scopes(doc, "spreadsheets", Some("values"), "spreadsheets.values", "append") {
        Ok(s) => s,
        Err(e) => {
            return Err(e);
        },
    };
    let pe = vec![
        entry("spreadsheetId", JsonValue::text(config.spreadsheet_id.as_str())),
        entry("range", JsonValue::text("A1")),
        entry("valueInputOption", JsonValue::text("USER_ENTERED")),
    ];
    let params = JsonValue::object(pe);
    assert(entry_views(pe@) =~= append_params_spec(config.spreadsheet_id@)->Object_0);
    let values_entry = entry("values", rows_to_json(&config.values));
    let body_entries = vec![values_entry];
    let body = JsonValue::object(body_entries);
    assert(entry_views(body_entries@) =~= seq![
        ("values"@, rows_json(string_grid(config.values@))),
    ]);
    Ok((params, body, scopes))
}

/// Builds the `spreadsheets.values.get` call: query parameters
/// `{spreadsheetId, range}` and the method's scopes.
pub fn build_read_request(config: &ReadConfig, doc: &RestDescription) -> (r: Result<(JsonValue, Vec<String>), GwsError>)
    ensures
        match (r, method_scopes_spec(*doc, "spreadsheets"@, Some("values"@), "get"@)) {
            (Ok((params, scopes)), Ok(s)) => {
                &&& params@ == Json::Object(
                    seq![
                        ("spreadsheetId"@, Json::Str(config.spreadsheet_id@)),
                        ("range"@, Json::Str(config.range@)),
                    ],
                )
                &&& string_views(scopes@) == s
            },
            (Err(GwsError::Discovery(m)), Err(t)) => m@ == t,
            _ => false,
        },
{
    proof {
        reveal_strlit("spreadsheets");
        reveal_strlit("values");
        reveal_strlit(".");
        reveal_strlit("spreadsheets.values");
        assert("spreadsheets.values"@ =~= "spreadsheets"@ + "."@ + "values"@);
    }
    let scopes = match method_scopes(doc, "spreadsheets", Some("values"), "spreadsheets.values", "get") {
        Ok(s) => s,
        Err(e) => {
            return Err(e);
        },
    };
    let pe = vec![
        entry("spreadsheetId", JsonValue::text(config.spreadsheet_id.as_str())),
        entry("range", JsonValue::text(config.range.as_str())),
    ];
    let params = JsonValue::object(pe);
    assert(entry_views(pe@) =~= seq![
        ("spreadsheetId"@, Json::Str(config.spreadsheet_id@)),
        ("range"@, Json::Str(config.range@)),
    ]);
    Ok((params, scopes))
}

/// The subcommands of the Sheets helper.
#[derive(Debug)]
pub enum SheetsCommand {
    Append,
    Read,
    AddTab,
    Freeze,
    ColumnWidth,
    FormatHeader,
    ConditionalFormat,
    ReadNotes,
    WriteNote,
}

/// The subcommand that each name selects.
pub open spec fn sheets_command_spec(name: Seq<char>) -> Option<SheetsCommand> {
    if name == "+append"@ {
        Some(SheetsCommand::Append)
    } else if name == "+read"@ {
        Some(SheetsCommand::Read)
    } else if name == "+add-tab"@ {
        Some(SheetsCommand::AddTab)
    } else if name == "+freeze"@ {
        Some(SheetsCommand::Freeze)
    } else if name == "+column-width"@ {
        Some(SheetsCommand::ColumnWidth)
    } else if name == "+format-header"@ {
        Some(SheetsCommand::FormatHeader)
    } else if name == "+conditional-format"@ {
        Some(SheetsCommand::ConditionalFormat)
    } else if name == "+read-notes"@ {
        Some(SheetsCommand::ReadNotes)
    } else if name == "+write-note"@ {
        Some(SheetsCommand::WriteNote)
    } else {
        None
    }
}

impl SheetsHelper {
    /// The subcommand that a name selects, if any.
    pub fn command(name: &str) -> (r: Option<SheetsCommand>)
        ensures
            r == sheets_command_spec(name@),
    {
        if same_text(name, "+append") {
            Some(SheetsCommand::Append)
        } else if same_text(name, "+read") {
            Some(SheetsCommand::Read)
        } else if same_text(name, "+add-tab") {
            Some(SheetsCommand::AddTab)
        } else if same_text(name, "+freeze") {
            Some(SheetsCommand::Freeze)
        } else if same_text(name, "+column-width") {
            Some(SheetsCommand::ColumnWidth)
        } else if same_text(name, "+format-header") {
            Some(SheetsCommand::FormatHeader)
        } else if same_text(name, "+conditional-format") {
            Some(SheetsCommand::ConditionalFormat)
        } else if same_text(name, "+read-notes") {
            Some(SheetsCommand::ReadNotes)
        } else if same_text(name, "+write-note") {
            Some(SheetsCommand::WriteNote)
        } else {
            None
        }
    }
}

/// The id of the sheet titled `tab` among `sheets` (the first such), with a
/// missing id read as 0.
pub open spec fn sheet_id_in(sheets: Seq<Json>, tab: Seq<char>) -> Option<i64>
    decreases sheets.len(),
{
    if sheets.len() == 0 {
        None
    } else if sheets[0].at("properties"@).at("title"@).as_str() == Some(tab) {
        Some(sheets[0].at("properties"@).at("sheetId"@).i64_or(0))
    } else {
        sheet_id_in(sheets.drop_first(), tab)
    }
}

/// What `sheet_id_for_tab` gives: the id of the tab, or the message of the error.
pub open spec fn sheet_id_spec(val: Json, tab: Seq<char>) -> Result<i64, Seq<char>> {
    match val.at("sheets"@).as_array() {
        None => Err("No sheets found"@),
        Some(sheets) => match sheet_id_in(sheets, tab) {
            Some(id) => Ok(id),
            None => Err("Tab '"@ + tab + "' not found"@),
        },
    }
}

/// Finds the sheet id of a tab by its title in a spreadsheet's
/// `sheets.properties`.
pub fn sheet_id_for_tab(val: &JsonValue, tab_name: &str) -> (r: Result<i64, GwsError>)
    ensures
        other_outcome(r, sheet_id_spec(val@, tab_name@)),
{
    let sheets = match val.at_key("sheets").as_array() {
        Some(v) => v,
        None => {
            return Err(GwsError::Other(String::from_str("No sheets found")));
        },
    };
    let ghost vs = views(sheets@);
    let mut i: usize = 0;
    assert(vs.skip(0) =~= vs);
    while i < sheets.len()
        invariant
            i <= sheets.len(),
            vs == views(sheets@),
            val@.at("sheets"@).as_array() == Some(vs),
            sheet_id_in(vs, tab_name@) == sheet_id_in(vs.skip(i as int), tab_name@),
        decreases sheets.len() - i,
    {
        assert(vs.skip(i as int).drop_first() =~= vs.skip(i + 1));
        assert(vs.skip(i as int)[0] == sheets@[i as int]@);
        let props = sheets[i].at_key("properties");
        match props.at_key("title").as_str() {
            Some(title) => {
                if same_text(title, tab_name) {
                    let id = match props.at_key("sheetId").as_i64() {
                        Some(v) => v,
                        None => 0,
                    };
                    return Ok(id);
                }
            },
            None => {},
        }
        i = i + 1;
    }
    assert(vs.skip(i as int).len() == 0);
    Err(GwsError::Other(concat3("Tab '", tab_name, "' not found")))
}

/// The requests of `+add-tab`: one `addSheet` with the tab's title.
pub open spec fn add_tab_spec(tab: Seq<char>) -> Json {
    Json::Array(
        seq![
            Json::Object(
                seq![
                    (
                        "addSheet"@,
                        Json::Object(
                            seq![
                                (
                                    "properties"@,
                                    Json::Object(seq![("title"@, Json::Str(tab))]),
                                ),
                            ],
                        ),
                    ),
                ],
            ),
        ],
    )
}

/// Builds the requests of `+add-tab`.
pub fn add_tab_requests(tab_name: &str) -> (r: JsonValue)
    ensures
        r@ == add_tab_spec(tab_name@),
{
    arr1(obj1("addSheet", obj1("properties", obj1("title", JsonValue::text(tab_name)))))
}

/// The id of the sheet that an `addSheet` reply reports, 0 when absent.
pub open spec fn added_sheet_id_spec(resp: Json) -> i64 {
    resp.at("replies"@).at_index(0).at("addSheet"@).at("properties"@).at("sheetId"@).i64_or(0)
}

/// Reads the new sheet's id from the reply of `+add-tab`.
pub fn added_sheet_id(resp: &JsonValue) -> (r: i64)
    ensures
        r == added_sheet_id_spec(resp@),
{
    let v = resp.at_key("replies").at_idx(0).at_key("addSheet").at_key("properties").at_key("sheetId");
    match v.as_i64() {
        Some(i) => i,
        None => 0,
    }
}

/// The row and column counts of `+freeze`, absent ones read as 0; freezing
/// nothing is refused.
pub fn freeze_counts(rows: Option<usize>, cols: Option<usize>) -> (r: Result<(usize, usize), GwsError>)
    ensures
        ({
            let fr = match rows {
                Some(n) => n,
                None => 0,
            };
            let fc = match cols {
                Some(n) => n,
                None => 0,
            };
            match r {
                Ok((a, b)) => a == fr && b == fc && !(fr == 0 && fc == 0),
                Err(e) => fr == 0 && fc == 0 && (e matches GwsError::Validation(m) && m@
                    == "At least one of --rows or --cols must be specified"@),
            }
        }),
{
    let frozen_rows = match rows {
        Some(n) => n,
        None => 0,
    };
    let frozen_cols = match cols {
        Some(n) => n,
        None => 0,
    };
    if frozen_rows == 0 && frozen_cols == 0 {
        return Err(
            GwsError::Validation(String::from_str("At least one of --rows or --cols must be specified")),
        );
    }
    Ok((frozen_rows, frozen_cols))
}

/// The requests of `+freeze`.
pub open spec fn freeze_spec(sheet_id: i64, rows: usize, cols: usize) -> Json {
    Json::Array(
        seq![
            Json::Object(
                seq![
                    (
                        "updateSheetProperties"@,
                        Json::Object(
                            seq![
                                (
                                    "properties"@,
                                    Json::Object(
                                        seq![
                                            ("sheetId"@, json_int(sheet_id)),
                                            (
                                                "gridProperties"@,
                                                Json::Object(
                                                    seq![
                                                        ("frozenRowCount"@, Json::PosInt(rows as u64)),
                                                        ("frozenColumnCount"@, Json::PosInt(cols as u64)),
                                                    ],
                                                ),
                                            ),
                                        ],
                                    ),
                                ),
                                (
                                    "fields"@,
                                    Json::Str(
                                        "gridProperties.frozenRowCount,gridProperties.frozenColumnCount"@,
                                    ),
                                ),
                            ],
                        ),
                    ),
                ],
            ),
        ],
    )
}

/// Builds the requests of `+freeze`.
pub fn freeze_requests(sheet_id: i64, rows: usize, cols: usize) -> (r: JsonValue)
    ensures
        r@ == freeze_spec(sheet_id, rows, cols),
{
    let grid = obj2(
        "frozenRowCount",
        JsonValue::from_usize(rows),
        "frozenColumnCount",
        JsonValue::from_usize(cols),
    );
    let props = obj2("sheetId", JsonValue::from_i64(sheet_id), "gridProperties", grid);
    let inner = obj2(
        "properties",
        props,
        "fields",
        JsonValue::text("gridProperties.frozenRowCount,gridProperties.frozenColumnCount"),
    );
    arr1(obj1("updateSheetProperties", inner))
}

/// The requests of `+column-width`.
pub open spec fn column_width_spec(sheet_id: i64, col: usize, pixels: usize) -> Json {
    Json::Array(
        seq![
            Json::Object(
                seq![
                    (
                        "updateDimensionProperties"@,
                        Json::Object(
                            seq![
                                (
                                    "range"@,
                                    Json::Object(
                                        seq![
                                            ("sheetId"@, json_int(sheet_id)),
                                            ("dimension"@, Json::Str("COLUMNS"@)),
                                            ("startIndex"@, Json::PosInt(col as u64)),
                                            ("endIndex"@, Json::PosInt((col + 1) as u64)),
                                        ],
                                    ),
                                ),
                                (
                                    "properties"@,
                                    Json::Object(seq![("pixelSize"@, Json::PosInt(pixels as u64))]),
                                ),
                                ("fields"@, Json::Str("pixelSize"@)),
                            ],
                        ),
                    ),
                ],
            ),
        ],
    )
}

/// Builds the requests of `+column-width`: the width of the one column
/// `col..col + 1`.
pub fn column_width_requests(sheet_id: i64, col: usize, pixels: usize) -> (r: JsonValue)
    requires
        col < usize::MAX,
    ensures
        r@ == column_width_spec(sheet_id, col, pixels),
{
    let mut range_entries: Vec<(String, JsonValue)> = Vec::new();
    range_entries.push(entry("sheetId", JsonValue::from_i64(sheet_id)));
    range_entries.push(entry("dimension", JsonValue::text("COLUMNS")));
    range_entries.push(entry("startIndex", JsonValue::from_usize(col)));
    range_entries.push(entry("endIndex", JsonValue::from_usize(col + 1)));
    let range = JsonValue::object(range_entries);
    assert(entry_views(range_entries@) =~= seq![
        ("sheetId"@, json_int(sheet_id)),
        ("dimension"@, Json::Str("COLUMNS"@)),
        ("startIndex"@, Json::PosInt(col as u64)),
        ("endIndex"@, Json::PosInt((col + 1) as u64)),
    ]);
    let inner = obj3(
        "range",
        range,
        "properties",
        obj1("pixelSize", JsonValue::from_usize(pixels)),
        "fields",
        JsonValue::text("pixelSize"),
    );
    arr1(obj1("updateDimensionProperties", inner))
}

/// A grid range of one sheet: rows `sr..er` and columns `sc..ec`.
pub open spec fn grid_range_spec(sheet_id: i64, sr: usize, er: usize, sc: usize, ec: usize) -> Json {
    Json::Object(
        seq![
            ("sheetId"@, json_int(sheet_id)),
            ("startRowIndex"@, Json::PosInt(sr as u64)),
            ("endRowIndex"@, Json::PosInt(er as u64)),
            ("startColumnIndex"@, Json::PosInt(sc as u64)),
            ("endColumnIndex"@, Json::PosInt(ec as u64)),
        ],
    )
}

/// Builds a grid range of one sheet.
pub fn grid_range(sheet_id: i64, sr: usize, er: usize, sc: usize, ec: usize) -> (r: JsonValue)
    ensures
        r@ == grid_range_spec(sheet_id, sr, er, sc, ec),
{
    let mut m: Vec<(String, JsonValue)> = Vec::new();
    m.push(entry("sheetId", JsonValue::from_i64(sheet_id)));
    m.push(entry("startRowIndex", JsonValue::from_usize(sr)));
    m.push(entry("endRowIndex", JsonValue::from_usize(er)));
    m.push(entry("startColumnIndex", JsonValue::from_usize(sc)));
    m.push(entry("endColumnIndex", JsonValue::from_usize(ec)));
    let r = JsonValue::object(m);
    assert(entry_views(m@) =~= grid_range_spec(sheet_id, sr, er, sc, ec)->Object_0);
    r
}

/// The requests of `+format-header`: bold, centred and wrapped cells over
/// `range`, with background colour `bg` and text colour `fg` (colour objects
/// that the caller builds).
pub open spec fn format_header_spec(range: Json, bg: Json, fg: Json) -> Json {
    Json::Array(
        seq![
            jo1(
                "repeatCell"@,
                jo3(
                    "range"@,
                    range,
                    "cell"@,
                    jo1(
                        "userEnteredFormat"@,
                        Json::Object(
                            seq![
                                ("backgroundColor"@, bg),
                                ("textFormat"@, jo2("bold"@, Json::Bool(true), "foregroundColor"@, fg)),
                                ("horizontalAlignment"@, Json::Str("CENTER"@)),
                                ("wrapStrategy"@, Json::Str("WRAP"@)),
                            ],
                        ),
                    ),
                    "fields"@,
                    Json::Str(
                        "userEnteredFormat(backgroundColor,textFormat,horizontalAlignment,wrapStrategy)"@,
                    ),
                ),
            ),
        ],
    )
}

/// Builds the requests of `+format-header` for rows `sr..er` and columns
/// `sc..ec` of the sheet `sheet_id`.
pub fn format_header_requests(
    sheet_id: i64,
    sc: usize,
    sr: usize,
    ec: usize,
    er: usize,
    bg: JsonValue,
    fg: JsonValue,
) -> (r: JsonValue)
    ensures
        r@ == format_header_spec(grid_range_spec(sheet_id, sr, er, sc, ec), bg@, fg@),
{
    let range = grid_range(sheet_id, sr, er, sc, ec);
    let mut fmt: Vec<(String, JsonValue)> = Vec::new();
    fmt.push(entry("backgroundColor", bg));
    fmt.push(entry("textFormat", obj2("bold", json_bool(true), "foregroundColor", fg)));
    fmt.push(entry("horizontalAlignment", JsonValue::text("CENTER")));
    fmt.push(entry("wrapStrategy", JsonValue::text("WRAP")));
    let ghost fv = entry_views(fmt@);
    let format = JsonValue::object(fmt);
    let inner = obj3(
        "range",
        range,
        "cell",
        obj1("userEnteredFormat", format),
        "fields",
        JsonValue::text("userEnteredFormat(backgroundColor,textFormat,horizontalAlignment,wrapStrategy)"),
    );
    let r = arr1(obj1("repeatCell", inner));
    assert(fv =~= format_header_spec(grid_range_spec(sheet_id, sr, er, sc, ec), bg@, fg@)->Array_0[0]
        ->Object_0[0].1->Object_0[1].1->Object_0[0].1->Object_0);
    r
}

/// The requests of `+conditional-format`: a rule, placed first, that makes
/// the cells of `range` whose text equals `match_text` bold on background
/// `bg` (a colour object that the caller builds).
pub open spec fn conditional_format_spec(range: Json, match_text: Seq<char>, bg: Json) -> Json {
    Json::Array(
        seq![
            jo1(
                "addConditionalFormatRule"@,
                jo2(
                    "rule"@,
                    jo2(
                        "ranges"@,
                        Json::Array(seq![range]),
                        "booleanRule"@,
                        jo2(
                            "condition"@,
                            jo2(
                                "type"@,
                                Json::Str("TEXT_EQ"@),
                                "values"@,
                                Json::Array(seq![jo1("userEnteredValue"@, Json::Str(match_text))]),
                            ),
                            "format"@,
                            jo2("backgroundColor"@, bg, "textFormat"@, jo1("bold"@, Json::Bool(true))),
                        ),
                    ),
                    "index"@,
                    Json::PosInt(0),
                ),
            ),
        ],
    )
}

/// Builds the requests of `+conditional-format` for rows `sr..er` and
/// columns `sc..ec` of the sheet `sheet_id`.
pub fn conditional_format_requests(
    sheet_id: i64,
    sc: usize,
    sr: usize,
    ec: usize,
    er: usize,
    match_text: &str,
    bg: JsonValue,
) -> (r: JsonValue)
    ensures
        r@ == conditional_format_spec(grid_range_spec(sheet_id, sr, er, sc, ec), match_text@, bg@),
{
    let range = grid_range(sheet_id, sr, er, sc, ec);
    let condition = obj2(
        "type",
        JsonValue::text("TEXT_EQ"),
        "values",
        arr1(obj1("userEnteredValue", JsonValue::text(match_text))),
    );
    let format = obj2("backgroundColor", bg, "textFormat", obj1("bold", json_bool(true)));
    let rule = obj2("ranges", arr1(range), "booleanRule", obj2("condition", condition, "format", format));
    arr1(obj1("addConditionalFormatRule", obj2("rule", rule, "index", JsonValue::from_usize(0))))
}

/// A grid range covers rows `sr..er` and columns `sc..ec` of sheet `sheet_id`:
/// each bound sits in its own field.
pub proof fn lemma_grid_range_fields(sheet_id: i64, sr: usize, er: usize, sc: usize, ec: usize)
    ensures
        grid_range_spec(sheet_id, sr, er, sc, ec).at("sheetId"@) == json_int(sheet_id),
        grid_range_spec(sheet_id, sr, er, sc, ec).at("startRowIndex"@) == Json::PosInt(sr as u64),
        grid_range_spec(sheet_id, sr, er, sc, ec).at("endRowIndex"@) == Json::PosInt(er as u64),
        grid_range_spec(sheet_id, sr, er, sc, ec).at("startColumnIndex"@) == Json::PosInt(sc as u64),
        grid_range_spec(sheet_id, sr, er, sc, ec).at("endColumnIndex"@) == Json::PosInt(ec as u64),
{
    reveal_strlit("sheetId");
    reveal_strlit("startRowIndex");
    reveal_strlit("endRowIndex");
    reveal_strlit("startColumnIndex");
    reveal_strlit("endColumnIndex");
    let e = grid_range_spec(sheet_id, sr, er, sc, ec)->Object_0;
    assert(e[0].0.len() == 7 && e[1].0.len() == 13 && e[2].0.len() == 11 && e[3].0.len() == 16
        && e[4].0.len() == 14);
    lemma_obj_lookup_at(e, 0);
    lemma_obj_lookup_at(e, 1);
    lemma_obj_lookup_at(e, 2);
    lemma_obj_lookup_at(e, 3);
    lemma_obj_lookup_at(e, 4);
}

/// `+format-header` formats exactly the given range: one `repeatCell` over
/// it with the given background, bold text in the given text colour,
/// centred and wrapped.
pub proof fn lemma_format_header_fields(range: Json, bg: Json, fg: Json)
    ensures
        ({
            let inner = format_header_spec(range, bg, fg).at_index(0).at("repeatCell"@);
            let fmt = inner.at("cell"@).at("userEnteredFormat"@);
            &&& inner.at("range"@) == range
            &&& fmt.at("backgroundColor"@) == bg
            &&& fmt.at("textFormat"@).at("bold"@) == Json::Bool(true)
            &&& fmt.at("textFormat"@).at("foregroundColor"@) == fg
            &&& fmt.at("horizontalAlignment"@) == Json::Str("CENTER"@)
            &&& fmt.at("wrapStrategy"@) == Json::Str("WRAP"@)
        }),
{
    reveal_strlit("repeatCell");
    reveal_strlit("range");
    reveal_strlit("cell");
    reveal_strlit("fields");
    reveal_strlit("userEnteredFormat");
    reveal_strlit("backgroundColor");
    reveal_strlit("textFormat");
    reveal_strlit("horizontalAlignment");
    reveal_strlit("wrapStrategy");
    reveal_strlit("bold");
    reveal_strlit("foregroundColor");
    let f = format_header_spec(range, bg, fg);
    let inner = f.at_index(0)->Object_0[0].1;
    let cell = inner->Object_0[1].1;
    let fmt = cell->Object_0[0].1;
    let tf = fmt->Object_0[1].1;
    assert("range"@.len() != "cell"@.len() && "range"@.len() != "fields"@.len() && "cell"@.len()
        != "fields"@.len());
    lemma_obj_lookup_at(f.at_index(0)->Object_0, 0);
    lemma_obj_lookup_at(inner->Object_0, 0);
    lemma_obj_lookup_at(inner->Object_0, 1);
    lemma_obj_lookup_at(cell->Object_0, 0);
    let e = fmt->Object_0;
    assert(e[0].0.len() == 15 && e[1].0.len() == 10 && e[2].0.len() == 19 && e[3].0.len() == 12);
    lemma_obj_lookup_at(e, 0);
    lemma_obj_lookup_at(e, 1);
    lemma_obj_lookup_at(e, 2);
    lemma_obj_lookup_at(e, 3);
    assert("bold"@.len() != "foregroundColor"@.len());
    lemma_obj_lookup_at(tf->Object_0, 0);
    lemma_obj_lookup_at(tf->Object_0, 1);
}

/// `+conditional-format` adds, first among the sheet's rules, one rule over
/// exactly the given range that makes cells whose text equals `match_text`
/// bold on background `bg`.
pub proof fn lemma_conditional_format_fields(range: Json, match_text: Seq<char>, bg: Json)
    ensures
        ({
            let inner = conditional_format_spec(range, match_text, bg).at_index(0).at(
                "addConditionalFormatRule"@,
            );
            let rule = inner.at("rule"@).at("booleanRule"@);
            &&& inner.at("rule"@).at("ranges"@) == Json::Array(seq![range])
            &&& inner.at("index"@) == Json::PosInt(0)
            &&& rule.at("condition"@).at("type"@) == Json::Str("TEXT_EQ"@)
            &&& rule.at("condition"@).at("values"@).at_index(0).at("userEnteredValue"@) == Json::Str(
                match_text,
            )
            &&& rule.at("format"@).at("backgroundColor"@) == bg
            &&& rule.at("format"@).at("textFormat"@).at("bold"@) == Json::Bool(true)
        }),
{
    reveal_strlit("addConditionalFormatRule");
    reveal_strlit("rule");
    reveal_strlit("index");
    reveal_strlit("ranges");
    reveal_strlit("booleanRule");
    reveal_strlit("condition");
    reveal_strlit("format");
    reveal_strlit("type");
    reveal_strlit("values");
    reveal_strlit("userEnteredValue");
    reveal_strlit("backgroundColor");
    reveal_strlit("textFormat");
    reveal_strlit("bold");
    let cond = jo2(
        "type"@,
        Json::Str("TEXT_EQ"@),
        "values"@,
        Json::Array(seq![jo1("userEnteredValue"@, Json::Str(match_text))]),
    );
    let format = jo2("backgroundColor"@, bg, "textFormat"@, jo1("bold"@, Json::Bool(true)));
    let brule = jo2("condition"@, cond, "format"@, format);
    let rule = jo2("ranges"@, Json::Array(seq![range]), "booleanRule"@, brule);
    let inner = jo2("rule"@, rule, "index"@, Json::PosInt(0));
    assert("rule"@.len() != "index"@.len());
    assert("ranges"@.len() != "booleanRule"@.len());
    assert("condition"@.len() != "format"@.len());
    assert("type"@.len() != "values"@.len());
    assert("backgroundColor"@.len() != "textFormat"@.len());
    lemma_jo1_at("addConditionalFormatRule"@, inner);
    lemma_jo2_at("rule"@, rule, "index"@, Json::PosInt(0));
    lemma_jo2_at("ranges"@, Json::Array(seq![range]), "booleanRule"@, brule);
    lemma_jo2_at("condition"@, cond, "format"@, format);
    lemma_jo2_at(
        "type"@,
        Json::Str("TEXT_EQ"@),
        "values"@,
        Json::Array(seq![jo1("userEnteredValue"@, Json::Str(match_text))]),
    );
    lemma_jo1_at("userEnteredValue"@, Json::Str(match_text));
    lemma_jo2_at("backgroundColor"@, bg, "textFormat"@, jo1("bold"@, Json::Bool(true)));
    lemma_jo1_at("bold"@, Json::Bool(true));
}

/// `+add-tab` adds one sheet titled `tab`.
pub proof fn lemma_add_tab_fields(tab: Seq<char>)
    ensures
        add_tab_spec(tab).at_index(0).at("addSheet"@).at("properties"@).at("title"@) == Json::Str(
            tab,
        ),
{
    let p = jo1("title"@, Json::Str(tab));
    lemma_jo1_at("addSheet"@, jo1("properties"@, p));
    lemma_jo1_at("properties"@, p);
    lemma_jo1_at("title"@, Json::Str(tab));
}

/// `+freeze` freezes exactly `rows` rows and `cols` columns of sheet
/// `sheet_id`, and updates only those two counts.
pub proof fn lemma_freeze_fields(sheet_id: i64, rows: usize, cols: usize)
    ensures
        ({
            let inner = freeze_spec(sheet_id, rows, cols).at_index(0).at("updateSheetProperties"@);
            let props = inner.at("properties"@);
            &&& props.at("sheetId"@) == json_int(sheet_id)
            &&& props.at("gridProperties"@).at("frozenRowCount"@) == Json::PosInt(rows as u64)
            &&& props.at("gridProperties"@).at("frozenColumnCount"@) == Json::PosInt(cols as u64)
            &&& inner.at("fields"@) == Json::Str(
                "gridProperties.frozenRowCount,gridProperties.frozenColumnCount"@,
            )
        }),
{
    reveal_strlit("properties");
    reveal_strlit("fields");
    reveal_strlit("sheetId");
    reveal_strlit("gridProperties");
    reveal_strlit("frozenRowCount");
    reveal_strlit("frozenColumnCount");
    let grid = jo2(
        "frozenRowCount"@,
        Json::PosInt(rows as u64),
        "frozenColumnCount"@,
        Json::PosInt(cols as u64),
    );
    let props = jo2("sheetId"@, json_int(sheet_id), "gridProperties"@, grid);
    let fields = Json::Str("gridProperties.frozenRowCount,gridProperties.frozenColumnCount"@);
    assert("properties"@.len() != "fields"@.len());
    assert("sheetId"@.len() != "gridProperties"@.len());
    assert("frozenRowCount"@.len() != "frozenColumnCount"@.len());
    lemma_jo1_at("updateSheetProperties"@, jo2("properties"@, props, "fields"@, fields));
    lemma_jo2_at("properties"@, props, "fields"@, fields);
    lemma_jo2_at("sheetId"@, json_int(sheet_id), "gridProperties"@, grid);
    lemma_jo2_at("frozenRowCount"@, Json::PosInt(rows as u64), "frozenColumnCount"@, Json::PosInt(cols as u64));
}

/// `+column-width` sets the width of the one column `col` (the column range
/// `col..col + 1`) of sheet `sheet_id` to `pixels`, and nothing else.
pub proof fn lemma_column_width_fields(sheet_id: i64, col: usize, pixels: usize)
    requires
        col < usize::MAX,
    ensures
        ({
            let inner = column_width_spec(sheet_id, col, pixels).at_index(0).at(
                "updateDimensionProperties"@,
            );
            let range = inner.at("range"@);
            &&& range.at("sheetId"@) == json_int(sheet_id)
            &&& range.at("dimension"@) == Json::Str("COLUMNS"@)
            &&& range.at("startIndex"@) == Json::PosInt(col as u64)
            &&& range.at("endIndex"@) == Json::PosInt((col + 1) as u64)
            &&& inner.at("properties"@).at("pixelSize"@) == Json::PosInt(pixels as u64)
            &&& inner.at("fields"@) == Json::Str("pixelSize"@)
        }),
{
    reveal_strlit("range");
    reveal_strlit("properties");
    reveal_strlit("fields");
    reveal_strlit("sheetId");
    reveal_strlit("dimension");
    reveal_strlit("startIndex");
    reveal_strlit("endIndex");
    reveal_strlit("pixelSize");
    let c = column_width_spec(sheet_id, col, pixels);
    let outer = c.at_index(0)->Object_0;
    lemma_obj_lookup_at(outer, 0);
    let inner = outer[0].1->Object_0;
    assert(inner[0].0.len() == 5 && inner[1].0.len() == 10 && inner[2].0.len() == 6);
    lemma_obj_lookup_at(inner, 0);
    lemma_obj_lookup_at(inner, 1);
    lemma_obj_lookup_at(inner, 2);
    let range = inner[0].1->Object_0;
    assert(range[0].0.len() == 7 && range[1].0.len() == 9 && range[2].0.len() == 10
        && range[3].0.len() == 8);
    lemma_obj_lookup_at(range, 0);
    lemma_obj_lookup_at(range, 1);
    lemma_obj_lookup_at(range, 2);
    lemma_obj_lookup_at(range, 3);
    lemma_obj_lookup_at(inner[1].1->Object_0, 0);
}

/// The requests of `+write-note`: the note of the single cell (`col`, `row`).
pub open spec fn write_note_spec(sheet_id: i64, col: usize, row: usize, note: Seq<char>) -> Json {
    Json::Array(
        seq![
            Json::Object(
                seq![
                    (
                        "updateCells"@,
                        Json::Object(
                            seq![
                                (
                                    "rows"@,
                                    Json::Array(
                                        seq![
                                            Json::Object(
                                                seq![
                                                    (
                                                        "values"@,
                                                        Json::Array(
                                                            seq![
                                                                Json::Object(
                                                                    seq![("note"@, Json::Str(note))],
                                                                ),
                                                            ],
                                                        ),
                                                    ),
                                                ],
                                            ),
                                        ],
                                    ),
                                ),
                                ("fields"@, Json::Str("note"@)),
                                (
                                    "range"@,
                                    grid_range_spec(
                                        sheet_id,
                                        row,
                                        (row + 1) as usize,
                                        col,
                                        (col + 1) as usize,
                                    ),
                                ),
                            ],
                        ),
                    ),
                ],
            ),
        ],
    )
}

/// `+write-note` sets the note of exactly the one cell (`col`, `row`) of
/// sheet `sheet_id` to `note`, and changes nothing but notes.
pub proof fn lemma_write_note_fields(sheet_id: i64, col: usize, row: usize, note: Seq<char>)
    requires
        col < usize::MAX,
        row < usize::MAX,
    ensures
        ({
            let inner = write_note_spec(sheet_id, col, row, note).at_index(0).at("updateCells"@);
            let range = inner.at("range"@);
            &&& inner.at("rows"@).at_index(0).at("values"@).at_index(0).at("note"@) == Json::Str(
                note,
            )
            &&& inner.at("fields"@) == Json::Str("note"@)
            &&& range.at("sheetId"@) == json_int(sheet_id)
            &&& range.at("startRowIndex"@) == Json::PosInt(row as u64)
            &&& range.at("endRowIndex"@) == Json::PosInt((row + 1) as u64)
            &&& range.at("startColumnIndex"@) == Json::PosInt(col as u64)
            &&& range.at("endColumnIndex"@) == Json::PosInt((col + 1) as u64)
        }),
{
    reveal_strlit("rows");
    reveal_strlit("fields");
    reveal_strlit("range");
    reveal_strlit("values");
    reveal_strlit("note");
    let w = write_note_spec(sheet_id, col, row, note);
    let outer = w.at_index(0)->Object_0;
    lemma_obj_lookup_at(outer, 0);
    let inner = outer[0].1->Object_0;
    assert(inner[0].0.len() == 4 && inner[1].0.len() == 6 && inner[2].0.len() == 5);
    lemma_obj_lookup_at(inner, 0);
    lemma_obj_lookup_at(inner, 1);
    lemma_obj_lookup_at(inner, 2);
    let r0 = inner[0].1.at_index(0)->Object_0;
    lemma_obj_lookup_at(r0, 0);
    lemma_obj_lookup_at(r0[0].1.at_index(0)->Object_0, 0);
    lemma_grid_range_fields(sheet_id, row, (row + 1) as usize, col, (col + 1) as usize);
}

/// Builds the requests of `+write-note`.
pub fn write_note_requests(sheet_id: i64, col: usize, row: usize, note: &str) -> (r: JsonValue)
    requires
        col < usize::MAX,
        row < usize::MAX,
    ensures
        r@ == write_note_spec(sheet_id, col, row, note@),
{
    let rows = arr1(obj1("values", arr1(obj1("note", JsonValue::text(note)))));
    let range = grid_range(sheet_id, row, row + 1, col, col + 1);
    let inner = obj3("rows", rows, "fields", JsonValue::text("note"), "range", range);
    arr1(obj1("updateCells", inner))
}

/// The leading ASCII letters of `s`.
pub open spec fn leading_letters(s: Seq<char>) -> Seq<char>
    decreases s.len(),
{
    if s.len() > 0 && is_ascii_letter(s[0]) {
        seq![s[0]] + leading_letters(s.drop_first())
    } else {
        Seq::empty()
    }
}

/// The leading ASCII digits of `s`.
pub open spec fn leading_digits(s: Seq<char>) -> Seq<char>
    decreases s.len(),
{
    if s.len() > 0 && is_digit_spec(s[0]) {
        seq![s[0]] + leading_digits(s.drop_first())
    } else {
        Seq::empty()
    }
}

/// The column letters that start the cell range of `+read-notes`.
pub open spec fn notes_start_letters(range: Seq<char>) -> Seq<char> {
    leading_letters(after_last(range, '!'))
}

/// The row digits that follow them.
pub open spec fn notes_start_digits(range: Seq<char>) -> Seq<char> {
    let part = after_last(range, '!');
    leading_digits(part.skip(leading_letters(part).len() as int))
}

/// The 0-based column where the range of `+read-notes` starts (0 without letters).
pub open spec fn notes_start_col(range: Seq<char>) -> int {
    let letters = notes_start_letters(range);
    if letters.len() == 0 {
        0
    } else {
        col_value(letters) - 1
    }
}

/// The 0-based row where the range of `+read-notes` starts (0 without digits,
/// and 0 when the number overflows).
pub open spec fn notes_start_row(range: Seq<char>) -> int {
    let digits = notes_start_digits(range);
    if digits.len() == 0 {
        0
    } else {
        match usize_from_str(digits) {
            Some(n) => n - 1,
            None => 0,
        }
    }
}

/// The ranges whose start `+read-notes` reads without a panic: the column
/// fits in a `usize` and the row number is not 0.
pub open spec fn notes_start_ok(range: Seq<char>) -> bool {
    &&& notes_start_letters(range).len() > 0 ==> col_value(notes_start_letters(range))
        <= usize::MAX
    &&& usize_from_str(notes_start_digits(range)) != Some(0nat)
}

/// The rows of cell data in a `spreadsheets.get` reply with grid data.
pub open spec fn note_rows(val: Json) -> Seq<Json> {
    val.at("sheets"@).at_index(0).at("data"@).at_index(0).at("rowData"@).elems()
}

/// The cells of a row of grid data.
pub open spec fn row_cells(row: Json) -> Seq<Json> {
    row.at("values"@).elems()
}

/// The note of a cell, when it has a non-empty one.
pub open spec fn cell_note(cell: Json) -> Option<Seq<char>> {
    match cell.at("note"@).as_str() {
        Some(n) => if n.len() > 0 {
            Some(n)
        } else {
            None
        },
        None => None,
    }
}

/// The A1 address of the cell at 0-based column `col`, 1-based row `row_num`.
pub open spec fn cell_address(col: nat, row_num: nat) -> Seq<char> {
    letters_of(col) + decimal_text(row_num)
}

/// The notes of a row's cells as `(address, note)`, the row being number
/// `row_num` and its first cell in column `col0`.
pub open spec fn row_notes(cells: Seq<Json>, col0: int, row_num: int) -> Seq<(Seq<char>, Seq<char>)>
    decreases cells.len(),
{
    if cells.len() == 0 {
        Seq::empty()
    } else {
        row_notes(cells.drop_last(), col0, row_num) + match cell_note(cells.last()) {
            Some(n) => seq![(cell_address((col0 + cells.len() - 1) as nat, row_num as nat), n)],
            None => Seq::empty(),
        }
    }
}

/// The notes of all rows, row by row; row `i` is number `row0 + i + 1`.
pub open spec fn grid_notes(rows: Seq<Json>, col0: int, row0: int) -> Seq<(Seq<char>, Seq<char>)>
    decreases rows.len(),
{
    if rows.len() == 0 {
        Seq::empty()
    } else {
        grid_notes(rows.drop_last(), col0, row0) + row_notes(
            row_cells(rows.last()),
            col0,
            row0 + rows.len(),
        )
    }
}

/// Every cell with a note has an address whose column and row numbers fit in
/// a `usize`.
pub open spec fn notes_fit(rows: Seq<Json>, col0: int, row0: int) -> bool {
    forall|ri: int, ci: int|
        0 <= ri < rows.len() && 0 <= ci < row_cells(rows[ri]).len() && (#[trigger] cell_note(
            row_cells(rows[ri])[ci],
        )) is Some ==> col0 + ci <= usize::MAX && row0 + ri + 1 <= usize::MAX
}

/// The views of `(address, note)` pairs.
pub open spec fn pair_views(v: Seq<(String, String)>) -> Seq<(Seq<char>, Seq<char>)> {
    Seq::new(v.len(), |i: int| (v[i].0@, v[i].1@))
}

fn range_start(range: &str) -> (r: (usize, usize))
    requires
        notes_start_ok(range@),
    ensures
        r.0 == notes_start_col(range@),
        r.1 == notes_start_row(range@),
{
    let cs = chars_of(range);
    let part = split_last(&cs, '!');
    let ghost p = part@;
    let mut i: usize = 0;
    let mut letters: Vec<char> = Vec::new();
    assert(leading_letters(p) == leading_letters(p.skip(0)) + Seq::<char>::empty()) by {
        assert(p.skip(0) =~= p);
    }
    while i < part.len() && (('A' <= part[i] && part[i] <= 'Z') || ('a' <= part[i] && part[i] <= 'z'))
        invariant
            i <= part.len(),
            p == part@,
            letters@ == p.take(i as int),
            forall|k: int| 0 <= k < i ==> is_ascii_letter(#[trigger] p[k]),
            leading_letters(p) == letters@ + leading_letters(p.skip(i as int)),
        decreases part.len() - i,
    {
        assert(p.skip(i as int).drop_first() =~= p.skip(i + 1));
        assert(p.skip(i as int)[0] == p[i as int]);
        letters.push(part[i]);
        assert(letters@ =~= p.take(i + 1));
        i = i + 1;
    }
    assert(leading_letters(p.skip(i as int)) =~= Seq::<char>::empty());
    let ghost q = p.skip(i as int);
    let mut j: usize = i;
    let mut digits: Vec<char> = Vec::new();
    assert(q.skip(0) =~= q);
    while j < part.len() && '0' <= part[j] && part[j] <= '9'
        invariant
            i <= j <= part.len(),
            p == part@,
            q == p.skip(i as int),
            leading_digits(q) == digits@ + leading_digits(q.skip(j - i)),
        decreases part.len() - j,
    {
        assert(q.skip(j - i).drop_first() =~= q.skip(j - i + 1));
        assert(q.skip(j - i)[0] == p[j as int]);
        digits.push(part[j]);
        j = j + 1;
    }
    assert(leading_digits(q.skip(j - i)) =~= Seq::<char>::empty());
    assert(leading_digits(q) =~= digits@);
    let start_col = if letters.len() == 0 {
        0
    } else {
        let s = string_from_chars(letters.as_slice());
        assert forall|k: int| 0 <= k < s@.len() implies crate::text::ascii_upper_spec(#[trigger] s@[k])
            >= 'A' as u32 by {
            assert(s@[k] == p[k]);
            assert(is_ascii_letter(p[k]));
        }
        assert(s@ == notes_start_letters(range@));
        col_letters_to_index(s.as_str())
    };
    let start_row = if digits.len() == 0 {
        0
    } else {
        let s = string_from_chars(digits.as_slice());
        match parse_usize(s.as_str()) {
            Some(n) => n - 1,
            None => 0,
        }
    };
    (start_col, start_row)
}

fn cell_address_text(col: usize, row_num: usize) -> (r: String)
    ensures
        r@ == cell_address(col as nat, row_num as nat),
{
    let letters = col_index_to_letters(col);
    let digits = usize_text(row_num);
    concat_msg(letters.as_str(), digits.as_str())
}

/// The non-empty notes of a `+read-notes` reply as `(cell address, note)`,
/// row by row, addressed from the start of `range` (`Sheet1!B3:D9` starts at
/// `B3`).
pub fn notes_from_response(range: &str, val: &JsonValue) -> (r: Vec<(String, String)>)
    requires
        notes_start_ok(range@),
        notes_fit(note_rows(val@), notes_start_col(range@), notes_start_row(range@)),
    ensures
        pair_views(r@) == grid_notes(note_rows(val@), notes_start_col(range@), notes_start_row(range@)),
{
    let (start_col, start_row) = range_start(range);
    let ghost col0 = start_col as int;
    let ghost row0 = start_row as int;
    let mut notes: Vec<(String, String)> = Vec::new();
    assert(pair_views(notes@) =~= Seq::<(Seq<char>, Seq<char>)>::empty());
    let row_data = val.at_key("sheets").at_idx(0).at_key("data").at_idx(0).at_key("rowData");
    if let Some(rows) = row_data.as_array() {
        let ghost rs = views(rows@);
        assert(rs == note_rows(val@));
        assert(rs.take(0) =~= Seq::<Json>::empty());
        let mut ri: usize = 0;
        while ri < rows.len()
            invariant
                ri <= rows.len(),
                rs == views(rows@),
                col0 == start_col,
                row0 == start_row,
                notes_fit(rs, col0, row0),
                pair_views(notes@) == grid_notes(rs.take(ri as int), col0, row0),
            decreases rows.len() - ri,
        {
            assert(rs.take(ri + 1).drop_last() =~= rs.take(ri as int));
            assert(rs[ri as int] == rows@[ri as int]@);
            let ghost before = pair_views(notes@);
            if let Some(values) = rows[ri].at_key("values").as_array() {
                let ghost cs = views(values@);
                assert(cs == row_cells(rs[ri as int]));
                assert(cs.take(0) =~= Seq::<Json>::empty());
                let mut ci: usize = 0;
                while ci < values.len()
                    invariant
                        ci <= values.len(),
                        ri < rows.len(),
                        cs == views(values@),
                        cs == row_cells(rs[ri as int]),
                        rs == views(rows@),
                        col0 == start_col,
                        row0 == start_row,
                        notes_fit(rs, col0, row0),
                        pair_views(notes@) == before + row_notes(cs.take(ci as int), col0, row0 + ri + 1),
                    decreases values.len() - ci,
                {
                    assert(cs.take(ci + 1).drop_last() =~= cs.take(ci as int));
                    assert(cs[ci as int] == values@[ci as int]@);
                    assert(cs.take(ci + 1).last() == cs[ci as int]);
                    assert(cs.take(ci + 1).len() == ci + 1);
                    match values[ci].at_key("note").as_str() {
                        Some(note) => {
                            if !note.is_empty() {
                                assert(cell_note(row_cells(rs[ri as int])[ci as int]) is Some);
                                let addr = cell_address_text(start_col + ci, start_row + ri + 1);
                                let entry_pair = (addr, String::from_str(note));
                                let ghost prev = notes@;
                                notes.push(entry_pair);
                                assert(pair_views(notes@) =~= pair_views(prev).push(
                                    (entry_pair.0@, entry_pair.1@),
                                ));
                                assert(cell_note(cs.take(ci + 1).last()) == Some(note@));
                                assert((col0 + cs.take(ci + 1).len() - 1) as nat == (start_col
                                    + ci) as nat);
                                assert(row_notes(cs.take(ci + 1), col0, row0 + ri + 1) =~= row_notes(
                                    cs.take(ci as int),
                                    col0,
                                    row0 + ri + 1,
                                ) + seq![
                                    (cell_address((start_col + ci) as nat, (start_row + ri + 1) as nat), note@),
                                ]);
                            } else {
                                assert(cell_note(cs.take(ci + 1).last()) is None);
                                assert(row_notes(cs.take(ci + 1), col0, row0 + ri + 1) =~= row_notes(
                                    cs.take(ci as int),
                                    col0,
                                    row0 + ri + 1,
                                ));
                            }
                        },
                        None => {
                            assert(cell_note(cs.take(ci + 1).last()) is None);
                            assert(row_notes(cs.take(ci + 1), col0, row0 + ri + 1) =~= row_notes(
                                cs.take(ci as int),
                                col0,
                                row0 + ri + 1,
                            ));
                        },
                    }
                    ci = ci + 1;
                }
                assert(cs.take(ci as int) =~= cs);
            } else {
                assert(row_cells(rs[ri as int]).len() == 0);
                assert(pair_views(notes@) =~= before + row_notes(
                    row_cells(rs[ri as int]),
                    col0,
                    row0 + ri + 1,
                ));
            }
            ri = ri + 1;
        }
        assert(rs.take(ri as int) =~= rs);
    }
    notes
}

/// Whether `parse_hex_color` reads `hex` without a panic in the command.
pub fn hex_color_valid(hex: &str) -> (r: bool)
    ensures
        r == hex_color_ok(hex@),
{
    let cs = chars_of(hex);
    let mut i: usize = 0;
    assert(cs@.skip(0) =~= cs@);
    while i < cs.len() && cs[i] == '#'
        invariant
            i <= cs.len(),
            cs@ == hex@,
            strip_hashes(hex@) == strip_hashes(cs@.skip(i as int)),
        decreases cs.len() - i,
    {
        assert(cs@.skip(i as int).drop_first() =~= cs@.skip(i + 1));
        i = i + 1;
    }
    let mut rest: Vec<char> = Vec::new();
    let mut k: usize = i;
    while k < cs.len()
        invariant
            i <= k <= cs.len(),
            rest@ == cs@.subrange(i as int, k as int),
        decreases cs.len() - k,
    {
        rest.push(cs[k]);
        k = k + 1;
    }
    assert(rest@ =~= cs@.skip(i as int));
    assert(strip_hashes(rest@) == rest@);
    let trimmed = string_from_chars(rest.as_slice());
    let t = trimmed.as_str();
    let b = t.as_bytes();
    if b.len() != 6 {
        return true;
    }
    if !t.is_char_boundary(2) {
        return false;
    }
    match parse_hex_pair(b[0], b[1]) {
        None => true,
        Some(_) => t.is_char_boundary(4),
    }
}

/// Whether `notes_from_response` reads `range` and `val` without a panic in
/// the command.
pub fn notes_valid(range: &str, val: &JsonValue) -> (r: bool)
    ensures
        r == (notes_start_ok(range@) && notes_fit(
            note_rows(val@),
            notes_start_col(range@),
            notes_start_row(range@),
        )),
{
    let cs = chars_of(range);
    let part = split_last(&cs, '!');
    let ghost p = part@;
    let mut i: usize = 0;
    let mut letters: Vec<char> = Vec::new();
    assert(p.skip(0) =~= p);
    while i < part.len() && (('A' <= part[i] && part[i] <= 'Z') || ('a' <= part[i] && part[i] <= 'z'))
        invariant
            i <= part.len(),
            p == part@,
            letters@ == p.take(i as int),
            leading_letters(p) == letters@ + leading_letters(p.skip(i as int)),
        decreases part.len() - i,
    {
        assert(p.skip(i as int).drop_first() =~= p.skip(i + 1));
        assert(p.skip(i as int)[0] == p[i as int]);
        letters.push(part[i]);
        assert(letters@ =~= p.take(i + 1));
        i = i + 1;
    }
    assert(leading_letters(p.skip(i as int)) =~= Seq::<char>::empty());
    let ghost q = p.skip(i as int);
    let mut j: usize = i;
    let mut digits: Vec<char> = Vec::new();
    assert(q.skip(0) =~= q);
    while j < part.len() && '0' <= part[j] && part[j] <= '9'
        invariant
            i <= j <= part.len(),
            p == part@,
            q == p.skip(i as int),
            leading_digits(q) == digits@ + leading_digits(q.skip(j - i)),
        decreases part.len() - j,
    {
        assert(q.skip(j - i).drop_first() =~= q.skip(j - i + 1));
        assert(q.skip(j - i)[0] == p[j as int]);
        digits.push(part[j]);
        j = j + 1;
    }
    assert(leading_digits(q.skip(j - i)) =~= Seq::<char>::empty());
    assert(leading_digits(q) =~= digits@);
    let letters_str = string_from_chars(letters.as_slice());
    if letters.len() > 0 && !col_letters_valid(letters_str.as_str()) {
        proof {
            assert forall|k: int| 0 <= k < letters_str@.len() implies crate::text::ascii_upper_spec(
                #[trigger] letters_str@[k],
            ) >= 'A' as u32 by {
                assert(letters_str@[k] == leading_letters(p)[k]);
                lemma_leading_letters(p);
            }
        }
        return false;
    }
    let digits_str = string_from_chars(digits.as_slice());
    if parse_usize(digits_str.as_str()) == Some(0usize) {
        return false;
    }
    let (start_col, start_row) = range_start(range);
    let row_data = val.at_key("sheets").at_idx(0).at_key("data").at_idx(0).at_key("rowData");
    let rows = match row_data.as_array() {
        Some(rows) => rows,
        None => {
            return true;
        },
    };
    let ghost rs = views(rows@);
    let mut ri: usize = 0;
    while ri < rows.len()
        invariant
            ri <= rows.len(),
            rs == views(rows@),
            rs == note_rows(val@),
            notes_start_ok(range@),
            start_col == notes_start_col(range@),
            start_row == notes_start_row(range@),
            forall|a: int, c: int|
                0 <= a < ri && 0 <= c < row_cells(rs[a]).len() && (#[trigger] cell_note(
                    row_cells(rs[a])[c],
                )) is Some ==> start_col + c <= usize::MAX && start_row + a + 1 <= usize::MAX,
        decreases rows.len() - ri,
    {
        assert(rs[ri as int] == rows@[ri as int]@);
        if let Some(values) = rows[ri].at_key("values").as_array() {
            let ghost cs2 = views(values@);
            let mut ci: usize = 0;
            while ci < values.len()
                invariant
                    ci <= values.len(),
                    ri < rows.len(),
                    cs2 == views(values@),
                    rs == note_rows(val@),
                    rs == views(rows@),
                    notes_start_ok(range@),
                    start_col == notes_start_col(range@),
                    start_row == notes_start_row(range@),
                    cs2 == row_cells(rs[ri as int]),
                    forall|c: int|
                        0 <= c < ci && (#[trigger] cell_note(cs2[c])) is Some ==> start_col + c
                            <= usize::MAX && start_row + ri + 1 <= usize::MAX,
                decreases values.len() - ci,
            {
                assert(cs2[ci as int] == values@[ci as int]@);
                match values[ci].at_key("note").as_str() {
                    Some(note) => {
                        if !note.is_empty() {
                            if start_col > usize::MAX - ci || start_row >= usize::MAX - ri {
                                assert(cell_note(row_cells(rs[ri as int])[ci as int]) is Some);
                                return false;
                            }
                        }
                    },
                    None => {},
                }
                ci = ci + 1;
            }
        }
        ri = ri + 1;
    }
    true
}

proof fn lemma_leading_letters(s: Seq<char>)
    ensures
        forall|k: int| 0 <= k < leading_letters(s).len() ==> is_ascii_letter(#[trigger] leading_letters(s)[k]),
        leading_letters(s).len() <= s.len(),
    decreases s.len(),
{
    if s.len() > 0 && is_ascii_letter(s[0]) {
        lemma_leading_letters(s.drop_first());
        assert forall|k: int| 0 <= k < leading_letters(s).len() implies is_ascii_letter(
            #[trigger] leading_letters(s)[k],
        ) by {
            if k > 0 {
                assert(leading_letters(s)[k] == leading_letters(s.drop_first())[k - 1]);
            }
        }
    }
}

/// The address that `+read-notes` prints for a cell reads back, through
/// `parse_cell_ref` (as `+write-note` reads its `--cell`), as that cell:
/// column `col` and 0-based row `row`.
pub proof fn lemma_cell_address_roundtrip(col: usize, row: usize)
    requires
        col < usize::MAX,
        row < usize::MAX,
    ensures
        cell_ref_ok(cell_address(col as nat, (row + 1) as nat)),
        cell_ref_spec(cell_address(col as nat, (row + 1) as nat)) == Ok::<(usize, usize), Seq<char>>((col, row)),
{
    let l = letters_of(col as nat);
    let d = decimal_text((row + 1) as nat);
    let cell = l + d;
    lemma_letters_of_shape(col as nat);
    lemma_col_index_roundtrip(col);
    lemma_decimal_text((row + 1) as nat);
    assert forall|i: int| 0 <= i < l.len() implies !is_digit_spec(#[trigger] l[i]) by {
        assert(is_upper_letter(l[i]));
    }
    lemma_first_digit_concat(l, d);
    assert(is_ascii_chars(l)) by {
        assert forall|i: int| 0 <= i < l.len() implies '\0' <= #[trigger] l[i] <= '\u{7f}' by {
            assert(is_upper_letter(l[i]));
        }
    }
    lemma_ascii_len(l);
    lemma_encode_utf8_split(l, d);
    encode_utf8_decode_utf8(l);
    encode_utf8_decode_utf8(d);
    assert(crate::a1::byte_prefix(cell, l.len() as int) == l);
    assert(crate::a1::byte_suffix(cell, l.len() as int) == d);
    assert(usize_from_str(d) == Some((row + 1) as nat));
}

} // verus!
