//! A1 notation: column letters, cell references and ranges.
use vstd::prelude::*;
use vstd::utf8::{decode_utf8, encode_utf8, encode_utf8_decode_utf8, is_char_boundary};
use crate::error::{concat_msg, other_outcome, GwsError};
use crate::text::{
    after_first, after_last, ascii_upper, ascii_upper_spec, before_first, chars_of, first_digit,
    is_ascii_digit, is_digit_spec, lemma_after_last_suffix, lemma_before_first_prefix,
    lemma_before_first_whole, lemma_first_digit, parse_usize, split_first, split_last,
    string_from_chars, usize_from_str,
};

verus! {

/// Value of one column letter: `A`/`a` is 1, `B`/`b` is 2, ...; any other
/// character counts by its upper-cased code point, so `_` is 31.
pub open spec fn col_digit(c: char) -> int {
    ascii_upper_spec(c) as int - 'A' as int + 1
}

/// Bijective base-26 value of a column name: `A` is 1, `Z` is 26, `AA` is 27.
pub open spec fn col_value(s: Seq<char>) -> int
    decreases s.len(),
{
    if s.len() == 0 {
        0
    } else {
        col_value(s.drop_last()) * 26 + col_digit(s.last())
    }
}

/// The column names that `col_letters_to_index` reads without overflow or
/// underflow: non-empty, no character below `A` once upper-cased, and a value
/// that fits in a `usize`.
pub open spec fn col_letters_ok(s: Seq<char>) -> bool {
    &&& s.len() > 0
    &&& forall|i: int| 0 <= i < s.len() ==> ascii_upper_spec(#[trigger] s[i]) >= 'A' as u32
    &&& col_value(s) <= usize::MAX
}

/// The column name of a 0-based column index: 0 is `A`, 25 is `Z`, 26 is `AA`.
pub open spec fn letters_of(n: nat) -> Seq<char>
    decreases n,
{
    if n < 26 {
        seq![(65 + n) as char]
    } else {
        letters_of((n / 26 - 1) as nat).push((65 + n % 26) as char)
    }
}

/// `c` is an upper-case ASCII letter.
pub open spec fn is_upper_letter(c: char) -> bool {
    'A' <= c && c <= 'Z'
}

/// `c` is an ASCII letter of either case.
pub open spec fn is_ascii_letter(c: char) -> bool {
    ('A' <= c && c <= 'Z') || ('a' <= c && c <= 'z')
}

proof fn lemma_col_prefix_le(s: Seq<char>, i: int)
    requires
        0 <= i <= s.len(),
        forall|j: int| 0 <= j < s.len() ==> ascii_upper_spec(#[trigger] s[j]) >= 'A' as u32,
    ensures
        col_value(s.take(i)) <= col_value(s),
        col_value(s.take(i)) >= 0,
    decreases s.len() - i,
{
    if i < s.len() {
        lemma_col_prefix_le(s, i + 1);
        assert(s.take(i + 1).drop_last() =~= s.take(i));
        assert forall|j: int| 0 <= j < s.take(i).len() implies ascii_upper_spec(
            #[trigger] s.take(i)[j],
        ) >= 'A' as u32 by {
            assert(s.take(i)[j] == s[j]);
        }
        lemma_col_value_nonneg(s.take(i));
        assert(ascii_upper_spec(s[i]) >= 'A' as u32);
        assert(s.take(i + 1).last() == s[i]);
    } else {
        assert(s.take(i) =~= s);
        lemma_col_value_nonneg(s);
    }
}

proof fn lemma_col_value_nonneg(s: Seq<char>)
    requires
        forall|j: int| 0 <= j < s.len() ==> ascii_upper_spec(#[trigger] s[j]) >= 'A' as u32,
    ensures
        col_value(s) >= 0,
        s.len() > 0 ==> col_value(s) >= 1,
    decreases s.len(),
{
    if s.len() > 0 {
        assert forall|j: int| 0 <= j < s.drop_last().len() implies ascii_upper_spec(
            #[trigger] s.drop_last()[j],
        ) >= 'A' as u32 by {
            assert(s.drop_last()[j] == s[j]);
        }
        lemma_col_value_nonneg(s.drop_last());
        assert(ascii_upper_spec(s[s.len() - 1]) >= 'A' as u32);
    }
}

/// Converts column letters to a 0-based index: `A` gives 0, `B` 1, `Z` 25, `AA` 26.
/// Lower-case letters count as their upper-case forms.
pub fn col_letters_to_index(letters: &str) -> (r: usize)
    requires
        col_letters_ok(letters@),
    ensures
        r == col_value(letters@) - 1,
{
    let cs = chars_of(letters);
    let mut acc: usize = 0;
    let mut i: usize = 0;
    proof {
        lemma_col_value_nonneg(letters@);
    }
    while i < cs.len()
        invariant
            i <= cs.len(),
            cs@ == letters@,
            col_letters_ok(letters@),
            acc == col_value(letters@.take(i as int)),
        decreases cs.len() - i,
    {
        let c = cs[i];
        proof {
            lemma_col_prefix_le(letters@, i + 1);
            assert(letters@.take(i + 1).drop_last() =~= letters@.take(i as int));
            assert(letters@.take(i + 1).last() == c);
            assert(ascii_upper_spec(letters@[i as int]) >= 'A' as u32);
        }
        let u = ascii_upper(c);
        acc = acc * 26 + ((u as usize - 65) + 1);
        i = i + 1;
    }
    assert(letters@.take(i as int) =~= letters@);
    acc - 1
}

/// A column name is a non-empty run of upper-case letters.
pub proof fn lemma_letters_of_shape(n: nat)
    ensures
        letters_of(n).len() > 0,
        forall|i: int| 0 <= i < letters_of(n).len() ==> is_upper_letter(#[trigger] letters_of(n)[i]),
    decreases n,
{
    if n >= 26 {
        lemma_letters_of_shape((n / 26 - 1) as nat);
    }
}

/// Converts a 0-based column index to letters: 0 gives `A`, 25 `Z`, 26 `AA`.
pub fn col_index_to_letters(idx: usize) -> (r: String)
    ensures
        r@ == letters_of(idx as nat),
{
    let mut letters: Vec<char> = Vec::new();
    let mut i: usize = idx;
    loop
        invariant_except_break
            letters_of(idx as nat) == letters_of(i as nat) + letters@,
        ensures
            letters_of(idx as nat) == letters@,
        decreases i,
    {
        let c = (65u8 + (i % 26) as u8) as char;
        let ghost old_letters = letters@;
        letters.insert(0, c);
        if i < 26 {
            assert(letters@ =~= seq![c] + old_letters);
            break ;
        }
        assert(letters_of(i as nat) == letters_of((i / 26 - 1) as nat).push(c));
        assert(letters@ =~= seq![c] + old_letters);
        assert(letters_of((i / 26 - 1) as nat).push(c) + old_letters =~= letters_of(
            (i / 26 - 1) as nat,
        ) + letters@);
        i = i / 26 - 1;
    }
    string_from_chars(letters.as_slice())
}

/// Writing a column index as letters and reading the letters back gives the
/// index again, for every index below `usize::MAX`.
pub proof fn lemma_col_index_roundtrip(n: usize)
    requires
        n < usize::MAX,
    ensures
        col_letters_ok(letters_of(n as nat)),
        col_value(letters_of(n as nat)) - 1 == n,
{
    lemma_col_value_of_letters(n as nat);
    lemma_letters_of_shape(n as nat);
}

proof fn lemma_col_value_of_letters(n: nat)
    ensures
        col_value(letters_of(n)) == n + 1,
    decreases n,
{
    if n >= 26 {
        let m = (n / 26 - 1) as nat;
        lemma_col_value_of_letters(m);
        let s = letters_of(n);
        assert(s.drop_last() =~= letters_of(m));
        assert(n == (n / 26) * 26 + n % 26);
        let c = (65 + n % 26) as char;
        assert(s.last() == c);
        assert(c as u32 == 65 + n % 26);
        assert(col_digit(c) == n % 26 + 1);
        assert(col_value(s) == col_value(s.drop_last()) * 26 + col_digit(s.last()));
        assert(col_value(s.drop_last()) == n / 26);
    } else {
        let c = (65 + n) as char;
        assert(c as u32 == 65 + n);
        assert(letters_of(n).drop_last().len() == 0);
        assert(col_digit(c) == n + 1);
        let s = letters_of(n);
        assert(s.last() == c);
        assert(col_value(s.drop_last()) == 0);
        assert(col_value(s) == col_value(s.drop_last()) * 26 + col_digit(s.last()));
    }
}

/// Reading a name made of ASCII letters as a column index and writing that
/// index back as letters gives the name in upper case.
pub proof fn lemma_col_letters_roundtrip(s: Seq<char>)
    requires
        s.len() > 0,
        forall|i: int| 0 <= i < s.len() ==> is_ascii_letter(#[trigger] s[i]),
    ensures
        col_value(s) >= 1,
        letters_of((col_value(s) - 1) as nat) == s.map_values(|c: char| ascii_upper_spec(c) as char),
    decreases s.len(),
{
    let p = s.drop_last();
    let c = s.last();
    assert(is_ascii_letter(s[s.len() - 1]));
    let d = col_digit(c);
    assert(1 <= d <= 26);
    if p.len() == 0 {
        assert(col_value(p) == 0);
        assert(s.map_values(|c: char| ascii_upper_spec(c) as char) =~= seq![
            ascii_upper_spec(c) as char,
        ]);
    } else {
        assert forall|i: int| 0 <= i < p.len() implies is_ascii_letter(#[trigger] p[i]) by {
            assert(p[i] == s[i]);
        }
        lemma_col_letters_roundtrip(p);
        let v = col_value(p);
        let n = v * 26 + d - 1;
        assert(n >= 26);
        assert(n / 26 == v && n % 26 == d - 1) by {
            assert(n == v * 26 + (d - 1));
            vstd::arithmetic::div_mod::lemma_fundamental_div_mod_converse(n, 26, v, d - 1);
        }
        assert(s.map_values(|c: char| ascii_upper_spec(c) as char) =~= p.map_values(
            |c: char| ascii_upper_spec(c) as char,
        ).push(ascii_upper_spec(c) as char));
    }
}

/// The characters whose UTF-8 encoding is the first `n` bytes of that of `s`.
pub open spec fn byte_prefix(s: Seq<char>, n: int) -> Seq<char> {
    decode_utf8(encode_utf8(s).subrange(0, n))
}

/// The characters whose UTF-8 encoding is what follows the first `n` bytes of
/// that of `s`.
pub open spec fn byte_suffix(s: Seq<char>, n: int) -> Seq<char> {
    decode_utf8(encode_utf8(s).subrange(n, encode_utf8(s).len() as int))
}

/// The cell references that `parse_cell_ref` reads without a panic in the
/// command: the position of the first digit, counted in characters, is used
/// as a byte offset and must fall on a character boundary; the column part
/// must be readable by `col_letters_to_index`; a row number of 0 underflows.
pub open spec fn cell_ref_ok(cell: Seq<char>) -> bool {
    match first_digit(cell) {
        None => true,
        Some(p) => {
            &&& is_char_boundary(encode_utf8(cell), p)
            &&& byte_prefix(cell, p).len() > 0 ==> {
                &&& col_letters_ok(byte_prefix(cell, p))
                &&& usize_from_str(byte_suffix(cell, p)) matches Some(n) ==> n > 0
            }
        },
    }
}

/// What `parse_cell_ref` gives: `(column, row)`, both 0-based, or the message
/// of the error.
pub open spec fn cell_ref_spec(cell: Seq<char>) -> Result<(usize, usize), Seq<char>> {
    match first_digit(cell) {
        None => Err("Invalid cell reference: "@ + cell),
        Some(p) => {
            let col = byte_prefix(cell, p);
            let row = byte_suffix(cell, p);
            if col.len() == 0 {
                Err("Invalid cell reference (no column): "@ + cell)
            } else {
                match usize_from_str(row) {
                    None => Err("Invalid row in cell: "@ + cell),
                    Some(n) => Ok(((col_value(col) - 1) as usize, (n - 1) as usize)),
                }
            }
        },
    }
}

fn first_digit_index(cs: &Vec<char>) -> (r: Option<usize>)
    ensures
        match r {
            Some(p) => first_digit(cs@) == Some(p as int),
            None => first_digit(cs@) is None,
        },
{
    let mut i: usize = 0;
    while i < cs.len()
        invariant
            i <= cs.len(),
            forall|j: int| 0 <= j < i ==> !is_digit_spec(#[trigger] cs@[j]),
        decreases cs.len() - i,
    {
        if is_ascii_digit(cs[i]) {
            proof {
                lemma_first_digit(cs@);
                if first_digit(cs@) != Some(i as int) {
                    let q = first_digit(cs@)->0;
                    assert(!is_digit_spec(cs@[i as int]) || q <= i);
                }
            }
            return Some(i);
        }
        i = i + 1;
    }
    proof {
        lemma_first_digit(cs@);
        if first_digit(cs@) is Some {
            let q = first_digit(cs@)->0;
            assert(!is_digit_spec(cs@[q]));
        }
    }
    None
}

/// Parses a cell reference such as `B5` into `(column, row)`, both 0-based
/// (`B5` gives `(1, 4)`).
pub fn parse_cell_ref(cell: &str) -> (r: Result<(usize, usize), GwsError>)
    requires
        cell_ref_ok(cell@),
    ensures
        other_outcome(r, cell_ref_spec(cell@)),
{
    let cs = chars_of(cell);
    let split_pos = match first_digit_index(&cs) {
        Some(p) => p,
        None => {
            return Err(GwsError::Other(concat_msg("Invalid cell reference: ", cell)));
        },
    };
    let (col_str, row_str) = cell.split_at(split_pos);
    proof {
        encode_utf8_decode_utf8(col_str@);
        encode_utf8_decode_utf8(row_str@);
        assert(col_str@ == byte_prefix(cell@, split_pos as int));
        assert(row_str@ == byte_suffix(cell@, split_pos as int));
    }
    if col_str.is_empty() {
        return Err(GwsError::Other(concat_msg("Invalid cell reference (no column): ", cell)));
    }
    let col = col_letters_to_index(col_str);
    let row = match parse_usize(row_str) {
        Some(n) => n,
        None => {
            return Err(GwsError::Other(concat_msg("Invalid row in cell: ", cell)));
        },
    };
    Ok((col, row - 1))
}

/// The part of an A1 range after an optional `Sheet!` prefix.
pub open spec fn range_body(range: Seq<char>) -> Seq<char> {
    after_last(range, '!')
}

/// The ranges that `parse_a1_range` reads without a panic in the command:
/// each cell reference it reads must satisfy `cell_ref_ok`.
pub open spec fn a1_range_ok(range: Seq<char>) -> bool {
    let body = range_body(range);
    let first = before_first(body, ':');
    &&& cell_ref_ok(first)
    &&& (cell_ref_spec(first) is Ok && body.contains(':')) ==> cell_ref_ok(
        before_first(after_first(body, ':'), ':'),
    )
}

/// What `parse_a1_range` gives: `(start_col, start_row, end_col, end_row)`,
/// 0-based with exclusive ends, or the message of the error. A single cell
/// gives a one-cell range; only the first two `:`-separated parts are read.
pub open spec fn a1_range_spec(range: Seq<char>) -> Result<(usize, usize, usize, usize), Seq<char>> {
    let body = range_body(range);
    let first = before_first(body, ':');
    match cell_ref_spec(first) {
        Err(m) => Err(m),
        Ok((sc, sr)) => if !body.contains(':') {
            Ok((sc, sr, (sc + 1) as usize, (sr + 1) as usize))
        } else {
            match cell_ref_spec(before_first(after_first(body, ':'), ':')) {
                Err(m) => Err(m),
                Ok((ec, er)) => Ok((sc, sr, (ec + 1) as usize, (er + 1) as usize)),
            }
        },
    }
}

/// A sheet name before `!` does not change what a range reads: `sheet!body`
/// gives what `body` gives, and parses without a panic exactly when `body`
/// does.
pub proof fn lemma_sheet_prefix_ignored(sheet: Seq<char>, body: Seq<char>)
    requires
        !body.contains('!'),
    ensures
        a1_range_spec(sheet + seq!['!'] + body) == a1_range_spec(body),
        a1_range_ok(sheet + seq!['!'] + body) == a1_range_ok(body),
{
    let p = sheet + seq!['!'];
    assert(p.last() == '!');
    lemma_after_last_suffix(p, body, '!');
    lemma_after_last_suffix(Seq::empty(), body, '!');
    assert(Seq::<char>::empty() + body =~= body);
}

/// A range that is a single cell reference is the one-cell range at that
/// cell, ends exclusive; the cell's error is the range's error.
pub proof fn lemma_single_cell_range(cell: Seq<char>)
    requires
        !cell.contains(':'),
        !cell.contains('!'),
    ensures
        a1_range_spec(cell) == match cell_ref_spec(cell) {
            Ok((c, r)) => Ok((c, r, (c + 1) as usize, (r + 1) as usize)),
            Err(m) => Err(m),
        },
{
    lemma_after_last_suffix(Seq::empty(), cell, '!');
    assert(Seq::<char>::empty() + cell =~= cell);
    lemma_before_first_whole(cell, ':');
}

/// A range `first:second` of two cell references spans from the first cell
/// through the second, ends exclusive; the first cell's error, else the
/// second's, is the range's error.
pub proof fn lemma_cell_pair_range(first: Seq<char>, second: Seq<char>)
    requires
        !first.contains(':'),
        !first.contains('!'),
        !second.contains(':'),
        !second.contains('!'),
    ensures
        a1_range_spec(first + seq![':'] + second) == match cell_ref_spec(first) {
            Err(m) => Err(m),
            Ok((sc, sr)) => match cell_ref_spec(second) {
                Err(m) => Err(m),
                Ok((ec, er)) => Ok((sc, sr, (ec + 1) as usize, (er + 1) as usize)),
            },
        },
{
    let s = first + seq![':'] + second;
    assert(!s.contains('!')) by {
        if s.contains('!') {
            let k = choose|k: int| 0 <= k < s.len() && s[k] == '!';
            if k < first.len() {
                assert(first[k] == '!');
            } else if k > first.len() {
                assert(second[k - first.len() - 1] == '!');
            }
        }
    }
    lemma_after_last_suffix(Seq::empty(), s, '!');
    assert(Seq::<char>::empty() + s =~= s);
    lemma_before_first_prefix(first, second, ':');
    lemma_before_first_whole(second, ':');
    assert(s[first.len() as int] == ':');
}

proof fn lemma_cell_ref_bounds(cell: Seq<char>)
    requires
        cell_ref_ok(cell),
    ensures
        cell_ref_spec(cell) matches Ok((c, r)) ==> c < usize::MAX && r < usize::MAX,
{
    if let Some(p) = first_digit(cell) {
        let col = byte_prefix(cell, p);
        if col.len() > 0 {
            lemma_col_value_nonneg(col);
        }
    }
}

/// Parses an A1 range such as `A1:C3` into `(start_col, start_row, end_col,
/// end_row)` with exclusive ends; a `Sheet1!` prefix is dropped.
pub fn parse_a1_range(range: &str) -> (r: Result<(usize, usize, usize, usize), GwsError>)
    requires
        a1_range_ok(range@),
    ensures
        other_outcome(r, a1_range_spec(range@)),
{
    let cs = chars_of(range);
    let body = split_last(&cs, '!');
    let (first, rest) = split_first(&body, ':');
    let first_str = string_from_chars(first.as_slice());
    proof {
        lemma_cell_ref_bounds(first@);
    }
    let (sc, sr) = match parse_cell_ref(first_str.as_str()) {
        Ok(v) => v,
        Err(e) => {
            return Err(e);
        },
    };
    match rest {
        None => Ok((sc, sr, sc + 1, sr + 1)),
        Some(rest) => {
            let (second, _) = split_first(&rest, ':');
            let second_str = string_from_chars(second.as_slice());
            proof {
                lemma_cell_ref_bounds(second@);
            }
            let (ec, er) = match parse_cell_ref(second_str.as_str()) {
                Ok(v) => v,
                Err(e) => {
                    return Err(e);
                },
            };
            Ok((sc, sr, ec + 1, er + 1))
        },
    }
}

/// Whether `col_letters_to_index` reads `letters` without overflow or
/// underflow (the command panics on the others).
pub fn col_letters_valid(letters: &str) -> (r: bool)
    ensures
        r == col_letters_ok(letters@),
{
    let cs = chars_of(letters);
    if cs.len() == 0 {
        return false;
    }
    let mut i: usize = 0;
    while i < cs.len()
        invariant
            i <= cs.len(),
            cs@ == letters@,
            forall|j: int| 0 <= j < i ==> ascii_upper_spec(#[trigger] cs@[j]) >= 'A' as u32,
        decreases cs.len() - i,
    {
        if ascii_upper(cs[i]) < 65 {
            return false;
        }
        i = i + 1;
    }
    let mut acc: usize = 0;
    let mut k: usize = 0;
    proof {
        lemma_col_value_nonneg(letters@);
    }
    while k < cs.len()
        invariant
            k <= cs.len(),
            cs@ == letters@,
            forall|j: int| 0 <= j < cs.len() ==> ascii_upper_spec(#[trigger] cs@[j]) >= 'A' as u32,
            acc == col_value(letters@.take(k as int)),
        decreases cs.len() - k,
    {
        proof {
            lemma_col_prefix_le(letters@, k + 1);
            assert(letters@.take(k + 1).drop_last() =~= letters@.take(k as int));
            assert(letters@.take(k + 1).last() == cs@[k as int]);
        }
        let d = (ascii_upper(cs[k]) - 65 + 1) as usize;
        match acc.checked_mul(26) {
            None => {
                return false;
            },
            Some(m) => match m.checked_add(d) {
                None => {
                    return false;
                },
                Some(v) => {
                    acc = v;
                },
            },
        }
        k = k + 1;
    }
    assert(letters@.take(k as int) =~= letters@);
    true
}

/// Whether `parse_cell_ref` reads `cell` without a panic in the command.
pub fn cell_ref_valid(cell: &str) -> (r: bool)
    ensures
        r == cell_ref_ok(cell@),
{
    let cs = chars_of(cell);
    let p = match first_digit_index(&cs) {
        Some(p) => p,
        None => {
            return true;
        },
    };
    if !cell.is_char_boundary(p) {
        return false;
    }
    let (col_str, row_str) = cell.split_at(p);
    proof {
        encode_utf8_decode_utf8(col_str@);
        encode_utf8_decode_utf8(row_str@);
        assert(col_str@ == byte_prefix(cell@, p as int));
        assert(row_str@ == byte_suffix(cell@, p as int));
    }
    if col_str.is_empty() {
        return true;
    }
    if !col_letters_valid(col_str) {
        return false;
    }
    match parse_usize(row_str) {
        Some(n) => n > 0,
        None => true,
    }
}

/// Whether `parse_a1_range` reads `range` without a panic in the command.
pub fn a1_range_valid(range: &str) -> (r: bool)
    ensures
        r == a1_range_ok(range@),
{
    let cs = chars_of(range);
    let body = split_last(&cs, '!');
    let (first, rest) = split_first(&body, ':');
    let first_str = string_from_chars(first.as_slice());
    if !cell_ref_valid(first_str.as_str()) {
        return false;
    }
    match rest {
        None => true,
        Some(rest) => {
            match parse_cell_ref(first_str.as_str()) {
                Err(_) => true,
                Ok(_) => {
                    let (second, _) = split_first(&rest, ':');
                    let second_str = string_from_chars(second.as_slice());
                    cell_ref_valid(second_str.as_str())
                },
            }
        },
    }
}

} // verus!
