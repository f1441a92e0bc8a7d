//! Character and string utilities shared by the helpers.
use vstd::prelude::*;
use vstd::utf8::{
    encode_utf8, encode_utf8_decode_utf8, encode_utf8_first_scalar, encode_utf8_valid_utf8,
    encode_scalar, is_ascii_chars, is_ascii_chars_encode_utf8, is_char_boundary, pop_first_scalar,
};

verus! {

broadcast use vstd::string::group_string_axioms;

/// `c` is one of the ASCII digits `0`..`9`.
pub open spec fn is_digit_spec(c: char) -> bool {
    '0' <= c && c <= '9'
}

/// The value of an ASCII digit.
pub open spec fn digit_value(c: char) -> int {
    c as int - '0' as int
}

/// ASCII upper-casing of a single character: `a`..`z` become `A`..`Z`,
/// every other character is left as it is.
pub open spec fn ascii_upper_spec(c: char) -> u32 {
    if 'a' <= c && c <= 'z' {
        (c as u32 - 32) as u32
    } else {
        c as u32
    }
}

/// Every character of `s` is an ASCII digit.
pub open spec fn all_digits(s: Seq<char>) -> bool {
    forall|i: int| 0 <= i < s.len() ==> #[trigger] is_digit_spec(s[i])
}

/// The number that a string of decimal digits spells, most significant first.
pub open spec fn decimal_value(s: Seq<char>) -> nat
    decreases s.len(),
{
    if s.len() == 0 {
        0
    } else {
        (decimal_value(s.drop_last()) * 10 + digit_value(s.last())) as nat
    }
}

/// What `usize::from_str` gives for a string: an optional `+` sign followed by
/// at least one ASCII digit, whose value fits in a `usize`.
pub open spec fn usize_from_str(s: Seq<char>) -> Option<nat> {
    let d = if s.len() > 0 && s[0] == '+' {
        s.drop_first()
    } else {
        s
    };
    if d.len() > 0 && all_digits(d) && decimal_value(d) <= usize::MAX {
        Some(decimal_value(d))
    } else {
        None
    }
}

/// Index of the first character of `s` that is an ASCII digit.
pub open spec fn first_digit(s: Seq<char>) -> Option<int>
    decreases s.len(),
{
    if s.len() == 0 {
        None
    } else if is_digit_spec(s[0]) {
        Some(0)
    } else {
        match first_digit(s.drop_first()) {
            Some(i) => Some(i + 1),
            None => None,
        }
    }
}

/// `first_digit` finds the first decimal digit, when there is one.
pub proof fn lemma_first_digit(s: Seq<char>)
    ensures
        first_digit(s) matches Some(p) ==> 0 <= p < s.len() && is_digit_spec(s[p]) && (forall|
            j: int,
        | 0 <= j < p ==> !is_digit_spec(#[trigger] s[j])),
        first_digit(s) is None ==> forall|j: int| 0 <= j < s.len() ==> !is_digit_spec(#[trigger] s[j]),
    decreases s.len(),
{
    if s.len() > 0 {
        lemma_first_digit(s.drop_first());
        assert forall|j: int| 1 <= j < s.len() implies s[j] == s.drop_first()[j - 1] by {}
    }
}

/// A prefix of a digit string has no greater value than the whole.
pub proof fn lemma_decimal_prefix_le(s: Seq<char>, i: int)
    requires
        0 <= i <= s.len(),
        all_digits(s),
    ensures
        decimal_value(s.take(i)) <= decimal_value(s),
    decreases s.len() - i,
{
    if i < s.len() {
        lemma_decimal_prefix_le(s, i + 1);
        assert(s.take(i + 1).drop_last() =~= s.take(i));
        assert(is_digit_spec(s[i]));
    } else {
        assert(s.take(i) =~= s);
    }
}

/// `char::is_ascii_digit`.
pub fn is_ascii_digit(c: char) -> (r: bool)
    ensures
        r == is_digit_spec(c),
{
    '0' <= c && c <= '9'
}

/// The code of `c` with an ASCII lower-case letter made upper-case
/// (`char::to_ascii_uppercase as u32`).
pub fn ascii_upper(c: char) -> (r: u32)
    ensures
        r == ascii_upper_spec(c),
{
    let u = c as u32;
    if 97 <= u && u <= 122 {
        u - 32
    } else {
        u
    }
}

/// The characters of a string slice, in order.
pub fn chars_of(s: &str) -> (r: Vec<char>)
    ensures
        r@ == s@,
{
    let mut r: Vec<char> = Vec::new();
    for c in it: s.chars()
        invariant
            r@ == it.seq().take(it.index() as int),
            it.seq() == s@,
    {
        r.push(c);
    }
    r
}


/// The part of `s` before its first `c` (all of `s` when it holds no `c`):
/// the first item of `s.split(c)`.
pub open spec fn before_first(s: Seq<char>, c: char) -> Seq<char>
    decreases s.len(),
{
    if s.len() == 0 {
        s
    } else if s[0] == c {
        Seq::empty()
    } else {
        seq![s[0]] + before_first(s.drop_first(), c)
    }
}

/// The part of `s` after its last `c` (all of `s` when it holds no `c`):
/// the last item of `s.split(c)`.
pub open spec fn after_last(s: Seq<char>, c: char) -> Seq<char>
    decreases s.len(),
{
    if s.len() == 0 {
        s
    } else if s.last() == c {
        Seq::empty()
    } else {
        after_last(s.drop_last(), c).push(s.last())
    }
}

/// The part of `s` after its first `c`; meaningful when `s` holds a `c`.
pub open spec fn after_first(s: Seq<char>, c: char) -> Seq<char> {
    s.skip(before_first(s, c).len() + 1 as int)
}

/// `before_first` is the prefix up to the first `c`, which it holds none of.
pub proof fn lemma_before_first(s: Seq<char>, c: char)
    ensures
        before_first(s, c).len() <= s.len(),
        before_first(s, c) =~= s.take(before_first(s, c).len() as int),
        forall|j: int| 0 <= j < before_first(s, c).len() ==> s[j] != c,
        before_first(s, c).len() < s.len() ==> s[before_first(s, c).len() as int] == c,
        s.contains(c) <==> before_first(s, c).len() < s.len(),
    decreases s.len(),
{
    if s.len() > 0 {
        lemma_before_first(s.drop_first(), c);
        if s[0] != c {
            assert forall|j: int| 1 <= j < s.len() implies s[j] == s.drop_first()[j - 1] by {}
            if s.drop_first().contains(c) {
                let k = choose|k: int| 0 <= k < s.drop_first().len() && s.drop_first()[k] == c;
                assert(s[k + 1] == c);
            }
            if s.contains(c) {
                let k = choose|k: int| 0 <= k < s.len() && s[k] == c;
                assert(s.drop_first()[k - 1] == c);
            }
        } else {
            assert(s.contains(c)) by {
                assert(s[0] == c);
            }
        }
    }
}

/// `after_last` is the suffix after the last `c`, which it holds none of.
pub proof fn lemma_after_last(s: Seq<char>, c: char)
    ensures
        after_last(s, c).len() <= s.len(),
        after_last(s, c) =~= s.skip(s.len() - after_last(s, c).len()),
        forall|j: int| 0 <= j < after_last(s, c).len() ==> after_last(s, c)[j] != c,
        after_last(s, c).len() < s.len() ==> s[s.len() - after_last(s, c).len() - 1] == c,
    decreases s.len(),
{
    if s.len() > 0 {
        lemma_after_last(s.drop_last(), c);
    }
}

/// A sequence without `c` is all before its first `c`.
pub proof fn lemma_before_first_whole(s: Seq<char>, c: char)
    requires
        !s.contains(c),
    ensures
        before_first(s, c) == s,
{
    lemma_before_first(s, c);
    assert(s.take(s.len() as int) =~= s);
}

/// In `a + [c] + b`, where `a` holds no `c`, the part before the first `c`
/// is `a` and the part after it is `b`.
pub proof fn lemma_before_first_prefix(a: Seq<char>, b: Seq<char>, c: char)
    requires
        !a.contains(c),
    ensures
        before_first(a + seq![c] + b, c) == a,
        after_first(a + seq![c] + b, c) == b,
    decreases a.len(),
{
    let s = a + seq![c] + b;
    if a.len() == 0 {
        assert(s[0] == c);
        assert(s.skip(1) =~= b);
    } else {
        if a[0] == c {
            assert(a.contains(c));
        }
        assert(!a.drop_first().contains(c)) by {
            if a.drop_first().contains(c) {
                let k = choose|k: int| 0 <= k < a.drop_first().len() && a.drop_first()[k] == c;
                assert(a[k + 1] == c);
            }
        }
        lemma_before_first_prefix(a.drop_first(), b, c);
        assert(s.drop_first() =~= a.drop_first() + seq![c] + b);
        assert(seq![a[0]] + a.drop_first() =~= a);
        assert(s.skip(a.len() + 1int) =~= b);
    }
}

/// What follows the last `c` of `p + b`, where `p` is empty or ends in `c`
/// and `b` holds no `c`, is `b`.
pub proof fn lemma_after_last_suffix(p: Seq<char>, b: Seq<char>, c: char)
    requires
        !b.contains(c),
        p.len() == 0 || p.last() == c,
    ensures
        after_last(p + b, c) == b,
    decreases b.len(),
{
    if b.len() == 0 {
        assert(p + b =~= p);
    } else {
        let s = p + b;
        assert(s.last() == b.last());
        if b.last() == c {
            assert(b[b.len() - 1] == c);
        }
        assert(s.drop_last() =~= p + b.drop_last());
        assert(!b.drop_last().contains(c)) by {
            if b.drop_last().contains(c) {
                let k = choose|k: int| 0 <= k < b.drop_last().len() && b.drop_last()[k] == c;
                assert(b[k] == c);
            }
        }
        lemma_after_last_suffix(p, b.drop_last(), c);
        assert(b.drop_last().push(b.last()) =~= b);
    }
}

/// The characters before the first `c` in `cs`, and whether there was one.
pub fn split_first(cs: &Vec<char>, c: char) -> (r: (Vec<char>, Option<Vec<char>>))
    ensures
        r.0@ == before_first(cs@, c),
        match r.1 {
            Some(rest) => cs@.contains(c) && rest@ == after_first(cs@, c),
            None => !cs@.contains(c),
        },
{
    proof {
        lemma_before_first(cs@, c);
    }
    let mut i: usize = 0;
    let mut head: Vec<char> = Vec::new();
    while i < cs.len() && cs[i] != c
        invariant
            i <= cs.len(),
            head@ == cs@.take(i as int),
            forall|j: int| 0 <= j < i ==> cs@[j] != c,
        decreases cs.len() - i,
    {
        head.push(cs[i]);
        i = i + 1;
    }
    proof {
        let b = before_first(cs@, c);
        if b.len() < i {
            assert(cs@[b.len() as int] == c);
        }
        if i < b.len() {
            assert(cs@[i as int] != c);
        }
        assert(b.len() == i);
    }
    if i == cs.len() {
        return (head, None);
    }
    let mut rest: Vec<char> = Vec::new();
    let mut k: usize = i + 1;
    while k < cs.len()
        invariant
            i + 1 <= k <= cs.len(),
            rest@ == cs@.subrange(i + 1, k as int),
        decreases cs.len() - k,
    {
        rest.push(cs[k]);
        k = k + 1;
    }
    assert(rest@ =~= after_first(cs@, c));
    (head, Some(rest))
}

/// The characters after the last `c` in `cs` (all of them when there is none).
pub fn split_last(cs: &Vec<char>, c: char) -> (r: Vec<char>)
    ensures
        r@ == after_last(cs@, c),
{
    proof {
        lemma_after_last(cs@, c);
    }
    let mut i: usize = cs.len();
    while i > 0 && cs[i - 1] != c
        invariant
            i <= cs.len(),
            forall|j: int| i <= j < cs.len() ==> cs@[j] != c,
        decreases i,
    {
        i = i - 1;
    }
    proof {
        let a = after_last(cs@, c);
        let start = cs.len() - a.len();
        if start < i {
            assert(cs@[i - 1] != c) by {
                assert(a[i - 1 - start] == cs@[i - 1]);
            }
        }
        if i < start {
            assert(cs@[start - 1] == c);
        }
        assert(start == i);
    }
    let mut r: Vec<char> = Vec::new();
    let mut k: usize = i;
    while k < cs.len()
        invariant
            i <= k <= cs.len(),
            r@ == cs@.subrange(i as int, k as int),
        decreases cs.len() - k,
    {
        r.push(cs[k]);
        k = k + 1;
    }
    r
}

/// Whether two string slices hold the same characters.
pub fn same_text(a: &str, b: &str) -> (r: bool)
    ensures
        r == (a@ == b@),
{
    let x = chars_of(a);
    let y = chars_of(b);
    if x.len() != y.len() {
        return false;
    }
    let mut i: usize = 0;
    while i < x.len()
        invariant
            i <= x.len(),
            x.len() == y.len(),
            x@ == a@,
            y@ == b@,
            forall|j: int| 0 <= j < i ==> x@[j] == y@[j],
        decreases x.len() - i,
    {
        if x[i] != y[i] {
            return false;
        }
        i = i + 1;
    }
    assert(x@ =~= y@);
    true
}

/// `t` occurs in `s` starting at character `i`.
pub open spec fn matches_at(s: Seq<char>, t: Seq<char>, i: int) -> bool {
    0 <= i && i + t.len() <= s.len() && s.subrange(i, i + t.len()) == t
}

/// `t` occurs somewhere in `s` (`str::contains`); the empty text occurs everywhere.
pub open spec fn contains_text(s: Seq<char>, t: Seq<char>) -> bool {
    exists|i: int| matches_at(s, t, i)
}

/// `t` occurs in `s` at `i` and nowhere before.
pub open spec fn is_first_match(s: Seq<char>, t: Seq<char>, i: int) -> bool {
    matches_at(s, t, i) && forall|j: int| 0 <= j < i ==> !matches_at(s, t, j)
}

/// The first position at which `t` occurs in `s`, in characters.
pub open spec fn first_match(s: Seq<char>, t: Seq<char>) -> Option<int> {
    if exists|i: int| is_first_match(s, t, i) {
        Some(choose|i: int| is_first_match(s, t, i))
    } else {
        None
    }
}

proof fn lemma_first_match_unique(s: Seq<char>, t: Seq<char>, i: int)
    requires
        is_first_match(s, t, i),
    ensures
        first_match(s, t) == Some(i),
{
    let j = choose|j: int| is_first_match(s, t, j);
    assert(is_first_match(s, t, j));
    if j < i {
        assert(!matches_at(s, t, j));
    }
    if i < j {
        assert(!matches_at(s, t, i));
    }
}

/// The first position at which `needle` occurs in `hay` (`str::find`, counted
/// in characters).
pub fn find_text(hay: &Vec<char>, needle: &Vec<char>) -> (r: Option<usize>)
    ensures
        match r {
            Some(i) => first_match(hay@, needle@) == Some(i as int),
            None => first_match(hay@, needle@) is None && !contains_text(hay@, needle@),
        },
        r is Some <==> contains_text(hay@, needle@),
{
    if needle.len() > hay.len() {
        assert forall|j: int| !matches_at(hay@, needle@, j) by {}
        assert(!exists|j: int| is_first_match(hay@, needle@, j));
        return None;
    }
    let last = hay.len() - needle.len();
    let mut i: usize = 0;
    while i <= last
        invariant
            last == hay.len() - needle.len(),
            needle.len() <= hay.len(),
            forall|j: int| 0 <= j < i ==> !matches_at(hay@, needle@, j),
        decreases last + 1 - i,
    {
        let mut k: usize = 0;
        while k < needle.len() && hay[i + k] == needle[k]
            invariant
                i <= last,
                last == hay.len() - needle.len(),
                k <= needle.len(),
                forall|m: int| 0 <= m < k ==> hay@[i + m] == needle@[m],
            decreases needle.len() - k,
        {
            k = k + 1;
        }
        if k == needle.len() {
            assert(hay@.subrange(i as int, i + needle.len()) =~= needle@);
            proof {
                lemma_first_match_unique(hay@, needle@, i as int);
            }
            return Some(i);
        }
        assert(!matches_at(hay@, needle@, i as int)) by {
            if matches_at(hay@, needle@, i as int) {
                assert(hay@.subrange(i as int, i + needle.len())[k as int] == needle@[k as int]);
            }
        }
        i = i + 1;
    }
    assert forall|j: int| !matches_at(hay@, needle@, j) by {
        if 0 <= j < i {
        }
    }
    assert(!exists|j: int| is_first_match(hay@, needle@, j));
    None
}

/// The decimal digits of `n`, most significant first, without leading zeros.
pub open spec fn decimal_text(n: nat) -> Seq<char>
    decreases n,
{
    if n < 10 {
        seq![(48 + n) as char]
    } else {
        decimal_text(n / 10).push((48 + n % 10) as char)
    }
}

/// `n` written in decimal (`usize::to_string`).
pub fn usize_text(n: usize) -> (r: String)
    ensures
        r@ == decimal_text(n as nat),
{
    let mut digits: Vec<char> = Vec::new();
    let mut i: usize = n;
    loop
        invariant_except_break
            decimal_text(n as nat) == decimal_text(i as nat) + digits@,
        ensures
            decimal_text(n as nat) == digits@,
        decreases i,
    {
        let c = (48u8 + (i % 10) as u8) as char;
        let ghost old_digits = digits@;
        digits.insert(0, c);
        assert(digits@ =~= seq![c] + old_digits);
        if i < 10 {
            break ;
        }
        assert(decimal_text(i as nat) == decimal_text((i / 10) as nat).push(c));
        assert(decimal_text((i / 10) as nat).push(c) + old_digits =~= decimal_text(
            (i / 10) as nat,
        ) + digits@);
        i = i / 10;
    }
    string_from_chars(digits.as_slice())
}

/// The views of a sequence of strings.
pub open spec fn string_views(v: Seq<String>) -> Seq<Seq<char>> {
    Seq::new(v.len(), |i: int| v[i]@)
}

/// The view of a grid of strings, row by row.
pub open spec fn string_grid(v: Seq<Vec<String>>) -> Seq<Seq<Seq<char>>> {
    Seq::new(v.len(), |i: int| string_views(v[i]@))
}

/// A copy of a list of strings.
pub fn copy_strings(v: &Vec<String>) -> (r: Vec<String>)
    ensures
        string_views(r@) == string_views(v@),
{
    let mut out: Vec<String> = Vec::new();
    let mut i: usize = 0;
    while i < v.len()
        invariant
            i <= v.len(),
            out@.len() == i,
            forall|k: int| 0 <= k < i ==> (#[trigger] out@[k])@ == v@[k]@,
        decreases v.len() - i,
    {
        out.push(v[i].clone());
        i = i + 1;
    }
    assert(string_views(out@) =~= string_views(v@));
    out
}

/// The items of `s.split(c)`, in order; an empty string gives one empty item.
pub open spec fn split_on(s: Seq<char>, c: char) -> Seq<Seq<char>>
    decreases s.len(),
{
    if s.len() == 0 {
        seq![Seq::empty()]
    } else {
        let p = split_on(s.drop_last(), c);
        if s.last() == c {
            p.push(Seq::empty())
        } else {
            p.update(p.len() - 1, p.last().push(s.last()))
        }
    }
}

proof fn lemma_split_on_nonempty(s: Seq<char>, c: char)
    ensures
        split_on(s, c).len() > 0,
    decreases s.len(),
{
    if s.len() > 0 {
        lemma_split_on_nonempty(s.drop_last(), c);
    }
}

/// The items of `parts` joined with `c` between each two.
pub open spec fn join_with(parts: Seq<Seq<char>>, c: char) -> Seq<char>
    decreases parts.len(),
{
    if parts.len() == 0 {
        Seq::empty()
    } else if parts.len() == 1 {
        parts[0]
    } else {
        join_with(parts.drop_last(), c) + seq![c] + parts.last()
    }
}

/// The number of times `c` occurs in `s`.
pub open spec fn count_char(s: Seq<char>, c: char) -> nat
    decreases s.len(),
{
    if s.len() == 0 {
        0
    } else {
        count_char(s.drop_last(), c) + if s.last() == c {
            1nat
        } else {
            0nat
        }
    }
}

/// Splitting at `c` loses and merges nothing: the items joined with `c` give
/// `s` back, no item holds `c`, and there is one item more than there are
/// `c`s in `s` (empty items included).
pub proof fn lemma_split_on_join(s: Seq<char>, c: char)
    ensures
        join_with(split_on(s, c), c) == s,
        split_on(s, c).len() == count_char(s, c) + 1,
        forall|i: int| 0 <= i < split_on(s, c).len() ==> !(#[trigger] split_on(s, c)[i]).contains(c),
    decreases s.len(),
{
    if s.len() == 0 {
        assert(split_on(s, c)[0] =~= Seq::<char>::empty());
        assert(join_with(split_on(s, c), c) =~= s);
    } else {
        let d = s.drop_last();
        let x = s.last();
        let p = split_on(d, c);
        lemma_split_on_join(d, c);
        lemma_split_on_nonempty(d, c);
        let q = split_on(s, c);
        if x == c {
            assert(q == p.push(Seq::empty()));
            assert(q.drop_last() =~= p);
            assert(join_with(q, c) == join_with(p, c) + seq![c] + Seq::<char>::empty());
            assert(s =~= d + seq![c] + Seq::<char>::empty());
            assert forall|i: int| 0 <= i < q.len() implies !(#[trigger] q[i]).contains(c) by {
                if i < p.len() {
                    assert(q[i] == p[i]);
                } else {
                    assert(q[i] =~= Seq::<char>::empty());
                }
            }
        } else {
            let l = p.last().push(x);
            assert(q == p.update(p.len() - 1, l));
            if p.len() == 1 {
                assert(join_with(q, c) == q[0]);
                assert(join_with(p, c) == p[0]);
                assert(s =~= d.push(x));
            } else {
                assert(q.drop_last() =~= p.drop_last());
                assert(join_with(q, c) == join_with(p.drop_last(), c) + seq![c] + l);
                assert(join_with(p, c) == join_with(p.drop_last(), c) + seq![c] + p.last());
                assert(s =~= d.push(x));
                assert(join_with(q, c) =~= join_with(p, c).push(x));
            }
            assert forall|i: int| 0 <= i < q.len() implies !(#[trigger] q[i]).contains(c) by {
                if i < p.len() - 1 {
                    assert(q[i] == p[i]);
                } else {
                    assert(q[i] == l);
                    assert(!p[p.len() - 1].contains(c));
                    if l.contains(c) {
                        let k = choose|k: int| 0 <= k < l.len() && l[k] == c;
                        if k < l.len() - 1 {
                            assert(p.last()[k] == c);
                        }
                    }
                }
            }
        }
    }
}

/// Splits `s` at every `c` (`str::split(c)` collected into owned strings).
pub fn split_text(s: &str, c: char) -> (r: Vec<String>)
    ensures
        string_views(r@) == split_on(s@, c),
{
    let cs = chars_of(s);
    let mut done: Vec<String> = Vec::new();
    let mut cur: Vec<char> = Vec::new();
    let mut i: usize = 0;
    assert(cs@.take(0) =~= Seq::<char>::empty());
    while i < cs.len()
        invariant
            i <= cs.len(),
            cs@ == s@,
            string_views(done@).push(cur@) == split_on(cs@.take(i as int), c),
        decreases cs.len() - i,
    {
        proof {
            lemma_split_on_nonempty(cs@.take(i as int), c);
        }
        assert(cs@.take(i + 1).drop_last() =~= cs@.take(i as int));
        let ghost prev = split_on(cs@.take(i as int), c);
        if cs[i] == c {
            let seg = string_from_chars(cur.as_slice());
            done.push(seg);
            cur = Vec::new();
            assert(string_views(done@).push(cur@) =~= prev.push(Seq::empty()));
        } else {
            let ghost old_cur = cur@;
            cur.push(cs[i]);
            assert(string_views(done@).push(cur@) =~= prev.update(
                prev.len() - 1,
                prev.last().push(cs@[i as int]),
            ));
        }
        i = i + 1;
    }
    assert(cs@.take(i as int) =~= cs@);
    let seg = string_from_chars(cur.as_slice());
    done.push(seg);
    assert(string_views(done@) =~= split_on(s@, c));
    done
}

/// The decimal text of a number is made of digits and reads back as that
/// number.
pub proof fn lemma_decimal_text(n: nat)
    ensures
        decimal_text(n).len() > 0,
        all_digits(decimal_text(n)),
        decimal_value(decimal_text(n)) == n,
        decimal_text(n)[0] != '+',
    decreases n,
{
    if n >= 10 {
        lemma_decimal_text(n / 10);
        let t = decimal_text(n);
        assert(t.drop_last() =~= decimal_text(n / 10));
        assert(t[0] == decimal_text(n / 10)[0]);
        let c = (48 + n % 10) as char;
        assert(c as int == 48 + n % 10);
        assert(t.last() == c);
        assert(n == (n / 10) * 10 + n % 10);
        assert('0' as int == 48);
        assert(digit_value(c) == n % 10);
        assert(decimal_value(t) == decimal_value(t.drop_last()) * 10 + digit_value(t.last()));
        assert forall|i: int| 0 <= i < t.len() implies #[trigger] is_digit_spec(t[i]) by {
            if i < t.len() - 1 {
                assert(t[i] == decimal_text(n / 10)[i]);
            }
        }
    } else {
        let t = decimal_text(n);
        let c = (48 + n) as char;
        assert(c as int == 48 + n);
        assert(t.last() == c);
        assert(t.drop_last() =~= Seq::<char>::empty());
        assert('0' as int == 48);
        assert(digit_value(c) == n);
        assert(decimal_value(t) == decimal_value(t.drop_last()) * 10 + digit_value(t.last()));
    }
}

/// The UTF-8 encoding of a concatenation is the concatenation of the encodings.
pub proof fn lemma_encode_utf8_concat(a: Seq<char>, b: Seq<char>)
    ensures
        encode_utf8(a + b) == encode_utf8(a) + encode_utf8(b),
    decreases a.len(),
{
    if a.len() > 0 {
        lemma_encode_utf8_concat(a.drop_first(), b);
        assert((a + b).drop_first() =~= a.drop_first() + b);
        assert((a + b)[0] == a[0]);
        assert(encode_utf8(a + b) =~= encode_utf8(a) + encode_utf8(b));
    } else {
        assert(a + b =~= b);
        assert(encode_utf8(a) =~= Seq::<u8>::empty());
        assert(encode_utf8(a) + encode_utf8(b) =~= encode_utf8(b));
    }
}

/// The end of the encoding of `a` is a character boundary of the encoding
/// of `a + b`, and the bytes before it decode to `a`.
pub proof fn lemma_encode_utf8_split(a: Seq<char>, b: Seq<char>)
    ensures
        is_char_boundary(encode_utf8(a + b), encode_utf8(a).len() as int),
        encode_utf8(a + b).subrange(0, encode_utf8(a).len() as int) == encode_utf8(a),
        encode_utf8(a + b).subrange(encode_utf8(a).len() as int, encode_utf8(a + b).len() as int)
            == encode_utf8(b),
    decreases a.len(),
{
    lemma_encode_utf8_concat(a, b);
    encode_utf8_valid_utf8(a + b);
    let ea = encode_utf8(a);
    let eb = encode_utf8(b);
    assert((ea + eb).subrange(0, ea.len() as int) =~= ea);
    assert((ea + eb).subrange(ea.len() as int, (ea + eb).len() as int) =~= eb);
    if a.len() > 0 {
        lemma_encode_utf8_split(a.drop_first(), b);
        encode_utf8_valid_utf8(a + b);
        encode_utf8_first_scalar(a + b);
        assert((a + b).drop_first() =~= a.drop_first() + b);
        assert((a + b)[0] == a[0]);
        let bytes = encode_utf8(a + b);
        assert(pop_first_scalar(bytes) =~= encode_utf8(a.drop_first() + b));
        assert(ea.len() == encode_scalar(a[0] as u32).len() + encode_utf8(a.drop_first()).len());
        assert(is_char_boundary(pop_first_scalar(bytes), ea.len() - encode_scalar(a[0] as u32).len()));
    }
}

/// An ASCII text has one byte per character.
pub proof fn lemma_ascii_len(a: Seq<char>)
    requires
        is_ascii_chars(a),
    ensures
        encode_utf8(a).len() == a.len(),
{
    is_ascii_chars_encode_utf8(a);
}

/// The first digit of `a + b` is the first character of `b` when `a` holds
/// no digit and `b` starts with one.
pub proof fn lemma_first_digit_concat(a: Seq<char>, b: Seq<char>)
    requires
        forall|i: int| 0 <= i < a.len() ==> !is_digit_spec(#[trigger] a[i]),
        b.len() > 0,
        is_digit_spec(b[0]),
    ensures
        first_digit(a + b) == Some(a.len() as int),
    decreases a.len(),
{
    if a.len() > 0 {
        assert forall|i: int| 0 <= i < a.drop_first().len() implies !is_digit_spec(
            #[trigger] a.drop_first()[i],
        ) by {
            assert(a.drop_first()[i] == a[i + 1]);
        }
        lemma_first_digit_concat(a.drop_first(), b);
        assert((a + b).drop_first() =~= a.drop_first() + b);
        assert((a + b)[0] == a[0]);
    } else {
        assert(a + b =~= b);
    }
}

/// Appends a character to a string.
///
/// Trusted: std's `String::push`, which appends `c` to the end of `s`.
#[verifier::external_body]
fn push_char(s: &mut String, c: char)
    ensures
        final(s)@ == old(s)@.push(c),
{
    s.push(c)
}

/// The owned string made of the given characters, in order.
pub fn string_from_chars(chars: &[char]) -> (r: String)
    ensures
        r@ == chars@,
{
    let mut s = String::new();
    let mut i: usize = 0;
    while i < chars.len()
        invariant
            i <= chars.len(),
            s@ == chars@.take(i as int),
        decreases chars.len() - i,
    {
        push_char(&mut s, chars[i]);
        assert(chars@.take(i + 1) =~= chars@.take(i as int).push(chars@[i as int]));
        i = i + 1;
    }
    assert(chars@.take(chars.len() as int) =~= chars@);
    s
}

/// `usize::from_str`: an optional `+` followed by decimal digits whose value
/// fits in a `usize`.
pub fn parse_usize(s: &str) -> (r: Option<usize>)
    ensures
        match r {
            Some(n) => usize_from_str(s@) == Some(n as nat),
            None => usize_from_str(s@) is None,
        },
{
    let cs = chars_of(s);
    let start: usize = if cs.len() > 0 && cs[0] == '+' { 1 } else { 0 };
    let ghost d = if s@.len() > 0 && s@[0] == '+' { s@.drop_first() } else { s@ };
    assert(d =~= cs@.skip(start as int));
    if start >= cs.len() {
        return None;
    }
    let mut acc: usize = 0;
    let mut i: usize = start;
    while i < cs.len()
        invariant
            start <= i <= cs.len(),
            cs@ == s@,
            d =~= cs@.skip(start as int),
            d == (if s@.len() > 0 && s@[0] == '+' { s@.drop_first() } else { s@ }),
            all_digits(cs@.subrange(start as int, i as int)),
            acc as nat == decimal_value(cs@.subrange(start as int, i as int)),
        decreases cs.len() - i,
    {
        let c = cs[i];
        let ghost pre = cs@.subrange(start as int, i as int);
        let ghost next = cs@.subrange(start as int, i + 1);
        assert(next.drop_last() =~= pre);
        if !is_ascii_digit(c) {
            assert(d[i - start] == c);
            assert(!all_digits(d));
            return None;
        }
        let dv = (c as u32 - 48) as usize;
        assert(all_digits(next));
        let ghost k: int = i - start + 1;
        assert(next.last() == c);
        assert(decimal_value(next) == decimal_value(pre) * 10 + digit_value(c));
        assert(dv as int == digit_value(c));
        proof {
            if all_digits(d) {
                lemma_decimal_prefix_le(d, k);
                assert(d.take(k) =~= next);
            }
        }
        match acc.checked_mul(10) {
            None => {
                return None;
            },
            Some(m) => match m.checked_add(dv) {
                None => {
                    return None;
                },
                Some(v) => {
                    acc = v;
                },
            },
        }
        i = i + 1;
    }
    assert(cs@.subrange(start as int, i as int) =~= d);
    Some(acc)
}

} // verus!
