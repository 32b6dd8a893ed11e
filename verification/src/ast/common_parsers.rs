//! The lexical layer shared by all parsers: character classes, runs of
//! characters, keywords, identifiers, numbers and quoted strings.
//!
//! Every parser works on the characters of the input (`Seq<char>` in
//! specifications, `Vec<char>` in code) and on positions into them. A spec
//! function `..._end` or `parse_...` says where a token that starts at `i`
//! ends; the executable function of the same name computes it.

use vstd::prelude::*;
use crate::text::{digits_value, int_text, is_digit, lemma_nat_text_digits, nat_text};

verus! {

/// The classes of characters that tokens are made of.
#[derive(Clone, Copy, Debug, PartialEq, Eq)]
pub enum CharClass {
    /// A space or a tab.
    Space,
    /// A space, a tab, a carriage return or a line feed.
    Multispace,
    /// A decimal digit.
    Digit,
    /// A letter, a digit or an underscore.
    IdentChar,
    /// Anything but a double quote.
    NotQuote,
}

pub open spec fn is_space(c: char) -> bool {
    c == ' ' || c == '\t'
}

pub open spec fn is_multispace(c: char) -> bool {
    is_space(c) || c == '\r' || c == '\n'
}

pub open spec fn is_ident_start(c: char) -> bool {
    ('a' <= c <= 'z') || ('A' <= c <= 'Z') || c == '_'
}

pub open spec fn is_ident_char(c: char) -> bool {
    is_ident_start(c) || is_digit(c)
}

pub open spec fn in_class(k: CharClass, c: char) -> bool {
    match k {
        CharClass::Space => is_space(c),
        CharClass::Multispace => is_multispace(c),
        CharClass::Digit => is_digit(c),
        CharClass::IdentChar => is_ident_char(c),
        CharClass::NotQuote => c != '"',
    }
}

/// The end of the longest run of characters of class `k` that starts at `i`.
pub open spec fn run_end(s: Seq<char>, i: int, k: CharClass) -> int
    decreases s.len() - i,
{
    if 0 <= i < s.len() && in_class(k, s[i]) {
        run_end(s, i + 1, k)
    } else {
        i
    }
}

/// Whether `t` stands in `s` at position `i`.
pub open spec fn has_tag(s: Seq<char>, i: int, t: Seq<char>) -> bool {
    0 <= i && i + t.len() <= s.len() && s.subrange(i, i + t.len()) == t
}

/// Whether the character at `i` exists and is `c`.
pub open spec fn char_at(s: Seq<char>, i: int, c: char) -> bool {
    0 <= i < s.len() && s[i] == c
}

/// The position after the spaces and tabs at `i`.
pub open spec fn skip_space(s: Seq<char>, i: int) -> int {
    run_end(s, i, CharClass::Space)
}

/// The position after the white space (line breaks included) at `i`.
pub open spec fn skip_multispace(s: Seq<char>, i: int) -> int {
    run_end(s, i, CharClass::Multispace)
}

/// The end of the C identifier (a letter or `_`, then letters, digits and
/// `_`) that starts at `i`; `i` itself where none starts there.
pub open spec fn ident_end(s: Seq<char>, i: int) -> int {
    if 0 <= i < s.len() && is_ident_start(s[i]) {
        run_end(s, i, CharClass::IdentChar)
    } else {
        i
    }
}

/// The words of the DBC format, which no name may be.
pub open spec fn dbc_keywords() -> Seq<Seq<char>> {
    seq![
        seq!['V', 'E', 'R', 'S', 'I', 'O', 'N'],
        seq!['N', 'S', '_'],
        seq!['N', 'S', '_', 'D', 'E', 'S', 'C', '_'],
        seq!['C', 'M', '_'],
        seq!['B', 'A', '_', 'D', 'E', 'F', '_'],
        seq!['B', 'A', '_'],
        seq!['V', 'A', 'L', '_'],
        seq!['C', 'A', 'T', '_', 'D', 'E', 'F', '_'],
        seq!['C', 'A', 'T', '_'],
        seq!['F', 'I', 'L', 'T', 'E', 'R'],
        seq!['B', 'A', '_', 'D', 'E', 'F', '_', 'D', 'E', 'F', '_'],
        seq!['E', 'V', '_', 'D', 'A', 'T', 'A', '_'],
        seq!['E', 'N', 'V', 'V', 'A', 'R', '_', 'D', 'A', 'T', 'A', '_'],
        seq!['S', 'G', 'T', 'Y', 'P', 'E', '_'],
        seq!['S', 'G', 'T', 'Y', 'P', 'E', '_', 'V', 'A', 'L', '_'],
        seq!['B', 'A', '_', 'D', 'E', 'F', '_', 'S', 'G', 'T', 'Y', 'P', 'E', '_'],
        seq!['B', 'A', '_', 'S', 'G', 'T', 'Y', 'P', 'E', '_'],
        seq!['S', 'I', 'G', '_', 'T', 'Y', 'P', 'E', '_', 'R', 'E', 'F', '_'],
        seq!['V', 'A', 'L', '_', 'T', 'A', 'B', 'L', 'E', '_'],
        seq!['S', 'I', 'G', '_', 'G', 'R', 'O', 'U', 'P', '_'],
        seq!['S', 'I', 'G', '_', 'V', 'A', 'L', 'T', 'Y', 'P', 'E', '_'],
        seq!['S', 'I', 'G', 'T', 'Y', 'P', 'E', '_', 'V', 'A', 'L', 'T', 'Y', 'P', 'E', '_'],
        seq!['B', 'O', '_', 'T', 'X', '_', 'B', 'U', '_'],
        seq!['B', 'A', '_', 'D', 'E', 'F', '_', 'R', 'E', 'L', '_'],
        seq!['B', 'A', '_', 'R', 'E', 'L', '_'],
        seq!['B', 'A', '_', 'D', 'E', 'F', '_', 'D', 'E', 'F', '_', 'R', 'E', 'L', '_'],
        seq!['B', 'U', '_', 'S', 'G', '_', 'R', 'E', 'L', '_'],
        seq!['B', 'U', '_', 'E', 'V', '_', 'R', 'E', 'L', '_'],
        seq!['B', 'U', '_', 'B', 'O', '_', 'R', 'E', 'L', '_'],
        seq!['S', 'G', '_', 'M', 'U', 'L', '_', 'V', 'A', 'L', '_'],
        seq!['B', 'S', '_'],
        seq!['B', 'U', '_'],
        seq!['B', 'O', '_'],
        seq!['S', 'G', '_'],
        seq!['E', 'V', '_'],
    ]
}

pub open spec fn is_keyword(w: Seq<char>) -> bool {
    dbc_keywords().contains(w)
}

/// A name: a C identifier that is not a keyword of the format.
pub open spec fn is_dbc_name(w: Seq<char>) -> bool {
    &&& w.len() > 0
    &&& is_ident_start(w[0])
    &&& forall|j: int| 0 <= j < w.len() ==> is_ident_char(#[trigger] w[j])
    &&& !is_keyword(w)
}

/// The end of the name that starts at `i`, if a C identifier starts there
/// and is not a keyword.
pub open spec fn parse_name(s: Seq<char>, i: int) -> Option<int> {
    let e = ident_end(s, i);
    if e > i && !is_keyword(s.subrange(i, e)) {
        Some(e)
    } else {
        None
    }
}

/// An unsigned decimal number that fits in a `u32`, and its end.
pub open spec fn parse_u32(s: Seq<char>, i: int) -> Option<(u32, int)> {
    let e = run_end(s, i, CharClass::Digit);
    let v = digits_value(s.subrange(i, e));
    if 0 <= i < e && v <= u32::MAX {
        Some((v as u32, e))
    } else {
        None
    }
}

/// The position after an optional `+` or `-` at `i`.
pub open spec fn sign_end(s: Seq<char>, i: int) -> int {
    if char_at(s, i, '-') || char_at(s, i, '+') {
        i + 1
    } else {
        i
    }
}

/// A decimal number with an optional sign that fits in an `i64`, and its end.
pub open spec fn parse_i64(s: Seq<char>, i: int) -> Option<(i64, int)> {
    let j = sign_end(s, i);
    let e = run_end(s, j, CharClass::Digit);
    let m = digits_value(s.subrange(j, e));
    let v: int = if char_at(s, i, '-') {
        -m
    } else {
        m as int
    };
    if 0 <= j < e && i64::MIN <= v <= i64::MAX {
        Some((v as i64, e))
    } else {
        None
    }
}

/// The end of the decimal number written at `i`: an optional sign, digits,
/// optionally a point and more digits (at least one digit in all), and
/// optionally an exponent (`e` or `E`, an optional sign, digits).
pub open spec fn number_end(s: Seq<char>, i: int) -> Option<int> {
    let a = sign_end(s, i);
    let b = run_end(s, a, CharClass::Digit);
    let has_point = char_at(s, b, '.');
    let c = if has_point {
        run_end(s, b + 1, CharClass::Digit)
    } else {
        b
    };
    if !(b > a || (has_point && c > b + 1)) {
        None
    } else if char_at(s, c, 'e') || char_at(s, c, 'E') {
        let d = sign_end(s, c + 1);
        let e = run_end(s, d, CharClass::Digit);
        if e > d {
            Some(e)
        } else {
            Some(c)
        }
    } else {
        Some(c)
    }
}

/// The end of the double-quoted string that starts at `i`; its text is
/// `s[i + 1..end - 1]` and holds no double quote.
pub open spec fn parse_quoted(s: Seq<char>, i: int) -> Option<int> {
    let e = run_end(s, i + 1, CharClass::NotQuote);
    if char_at(s, i, '"') && char_at(s, e, '"') {
        Some(e + 1)
    } else {
        None
    }
}

/// The position after the line endings (`\n` or `\r\n`) at `i`.
pub open spec fn line_endings_end(s: Seq<char>, i: int) -> int
    decreases s.len() - i,
{
    if char_at(s, i, '\n') {
        line_endings_end(s, i + 1)
    } else if char_at(s, i, '\r') && char_at(s, i + 1, '\n') {
        line_endings_end(s, i + 2)
    } else {
        i
    }
}

fn class_has(k: CharClass, c: char) -> (b: bool)
    ensures
        b == in_class(k, c),
{
    match k {
        CharClass::Space => c == ' ' || c == '\t',
        CharClass::Multispace => c == ' ' || c == '\t' || c == '\r' || c == '\n',
        CharClass::Digit => '0' <= c && c <= '9',
        CharClass::IdentChar => ('a' <= c && c <= 'z') || ('A' <= c && c <= 'Z') || c == '_' || (
        '0' <= c && c <= '9'),
        CharClass::NotQuote => c != '"',
    }
}

pub fn scan_run(v: &Vec<char>, i: usize, k: CharClass) -> (e: usize)
    requires
        i <= v@.len(),
    ensures
        e == run_end(v@, i as int, k),
        i <= e <= v@.len(),
{
    let mut j = i;
    while j < v.len() && class_has(k, v[j])
        invariant
            i <= j <= v@.len(),
            run_end(v@, i as int, k) == run_end(v@, j as int, k),
        decreases v@.len() - j,
    {
        j = j + 1;
    }
    j
}

pub fn scan_space(v: &Vec<char>, i: usize) -> (e: usize)
    requires
        i <= v@.len(),
    ensures
        e == skip_space(v@, i as int),
        i <= e <= v@.len(),
{
    scan_run(v, i, CharClass::Space)
}

pub fn scan_multispace(v: &Vec<char>, i: usize) -> (e: usize)
    requires
        i <= v@.len(),
    ensures
        e == skip_multispace(v@, i as int),
        i <= e <= v@.len(),
{
    scan_run(v, i, CharClass::Multispace)
}

pub fn tag_at(v: &Vec<char>, i: usize, t: &[char]) -> (b: bool)
    requires
        i <= v@.len(),
    ensures
        b == has_tag(v@, i as int, t@),
        v@.len() <= usize::MAX,
{
    if t.len() > v.len() - i {
        return false;
    }
    let mut j: usize = 0;
    while j < t.len()
        invariant
            j <= t@.len(),
            i + t@.len() <= v@.len(),
            v@.len() <= usize::MAX,
            forall|m: int| 0 <= m < j ==> v@[i + m] == t@[m],
        decreases t@.len() - j,
    {
        if v[i + j] != t[j] {
            assert(v@.subrange(i as int, i + t@.len())[j as int] != t@[j as int]);
            return false;
        }
        j = j + 1;
    }
    assert(v@.subrange(i as int, i + t@.len()) =~= t@);
    true
}

pub fn char_is(v: &Vec<char>, i: usize, c: char) -> (b: bool)
    ensures
        b == char_at(v@, i as int, c),
        v@.len() <= usize::MAX,
{
    let n = v.len();
    i < n && v[i] == c
}

pub fn scan_ident(v: &Vec<char>, i: usize) -> (e: usize)
    requires
        i <= v@.len(),
    ensures
        e == ident_end(v@, i as int),
        i <= e <= v@.len(),
{
    if i < v.len() && (('a' <= v[i] && v[i] <= 'z') || ('A' <= v[i] && v[i] <= 'Z') || v[i]
        == '_') {
        scan_run(v, i, CharClass::IdentChar)
    } else {
        i
    }
}

/// Whether `v[start..end]` is `w`.
fn range_is(v: &Vec<char>, start: usize, end: usize, w: &[char]) -> (b: bool)
    requires
        start <= end <= v@.len(),
    ensures
        b == (v@.subrange(start as int, end as int) == w@),
{
    if end - start != w.len() {
        return false;
    }
    let b = tag_at(v, start, w);
    assert(b == (v@.subrange(start as int, end as int) =~= w@));
    b
}

pub fn keyword_range(v: &Vec<char>, start: usize, end: usize) -> (b: bool)
    requires
        start <= end <= v@.len(),
    ensures
        b == is_keyword(v@.subrange(start as int, end as int)),
{
    let ghost w = v@.subrange(start as int, end as int);
    let ghost k = dbc_keywords();
    let mut found = false;
    let words: [&[char]; 35] = [
        &['V', 'E', 'R', 'S', 'I', 'O', 'N'],
        &['N', 'S', '_'],
        &['N', 'S', '_', 'D', 'E', 'S', 'C', '_'],
        &['C', 'M', '_'],
        &['B', 'A', '_', 'D', 'E', 'F', '_'],
        &['B', 'A', '_'],
        &['V', 'A', 'L', '_'],
        &['C', 'A', 'T', '_', 'D', 'E', 'F', '_'],
        &['C', 'A', 'T', '_'],
        &['F', 'I', 'L', 'T', 'E', 'R'],
        &['B', 'A', '_', 'D', 'E', 'F', '_', 'D', 'E', 'F', '_'],
        &['E', 'V', '_', 'D', 'A', 'T', 'A', '_'],
        &['E', 'N', 'V', 'V', 'A', 'R', '_', 'D', 'A', 'T', 'A', '_'],
        &['S', 'G', 'T', 'Y', 'P', 'E', '_'],
        &['S', 'G', 'T', 'Y', 'P', 'E', '_', 'V', 'A', 'L', '_'],
        &['B', 'A', '_', 'D', 'E', 'F', '_', 'S', 'G', 'T', 'Y', 'P', 'E', '_'],
        &['B', 'A', '_', 'S', 'G', 'T', 'Y', 'P', 'E', '_'],
        &['S', 'I', 'G', '_', 'T', 'Y', 'P', 'E', '_', 'R', 'E', 'F', '_'],
        &['V', 'A', 'L', '_', 'T', 'A', 'B', 'L', 'E', '_'],
        &['S', 'I', 'G', '_', 'G', 'R', 'O', 'U', 'P', '_'],
        &['S', 'I', 'G', '_', 'V', 'A', 'L', 'T', 'Y', 'P', 'E', '_'],
        &['S', 'I', 'G', 'T', 'Y', 'P', 'E', '_', 'V', 'A', 'L', 'T', 'Y', 'P', 'E', '_'],
        &['B', 'O', '_', 'T', 'X', '_', 'B', 'U', '_'],
        &['B', 'A', '_', 'D', 'E', 'F', '_', 'R', 'E', 'L', '_'],
        &['B', 'A', '_', 'R', 'E', 'L', '_'],
        &['B', 'A', '_', 'D', 'E', 'F', '_', 'D', 'E', 'F', '_', 'R', 'E', 'L', '_'],
        &['B', 'U', '_', 'S', 'G', '_', 'R', 'E', 'L', '_'],
        &['B', 'U', '_', 'E', 'V', '_', 'R', 'E', 'L', '_'],
        &['B', 'U', '_', 'B', 'O', '_', 'R', 'E', 'L', '_'],
        &['S', 'G', '_', 'M', 'U', 'L', '_', 'V', 'A', 'L', '_'],
        &['B', 'S', '_'],
        &['B', 'U', '_'],
        &['B', 'O', '_'],
        &['S', 'G', '_'],
        &['E', 'V', '_'],
    ];
    assert forall|j: int| 0 <= j < 35 implies (#[trigger] words@[j])@ == k[j] by {
        assert(words@[j]@ =~= k[j]);
    }
    let mut n: usize = 0;
    while n < 35
        invariant
            n <= 35,
            start <= end <= v@.len(),
            k.len() == 35,
            w == v@.subrange(start as int, end as int),
            forall|j: int| 0 <= j < 35 ==> (#[trigger] words@[j])@ == k[j],
            found <==> exists|j: int| 0 <= j < n && k[j] == w,
        decreases 35 - n,
    {
        if !found && range_is(v, start, end, words[n]) {
            found = true;
        }
        n = n + 1;
    }
    found
}


/// A run ends at or after its start, holds only characters of its class,
/// and stops at the end of the input or at a character outside the class.
pub proof fn lemma_run_end(s: Seq<char>, i: int, k: CharClass)
    requires
        0 <= i <= s.len(),
    ensures
        i <= run_end(s, i, k) <= s.len(),
        forall|m: int| i <= m < run_end(s, i, k) ==> in_class(k, #[trigger] s[m]),
        run_end(s, i, k) < s.len() ==> !in_class(k, s[run_end(s, i, k)]),
    decreases s.len() - i,
{
    if i < s.len() && in_class(k, s[i]) {
        lemma_run_end(s, i + 1, k);
    }
}

/// A run of characters of class `k` from `i` to `j`, followed by the end of
/// the input or by a character outside the class, is the run at `i`.
pub proof fn lemma_run_end_at(s: Seq<char>, i: int, j: int, k: CharClass)
    requires
        0 <= i <= j <= s.len(),
        forall|m: int| i <= m < j ==> in_class(k, #[trigger] s[m]),
        j < s.len() ==> !in_class(k, s[j]),
    ensures
        run_end(s, i, k) == j,
    decreases j - i,
{
    if i < j {
        lemma_run_end_at(s, i + 1, j, k);
    }
}

/// The digits `s[i..j]` and the value they add up to, checked against `limit`.
fn digits_up_to(v: &Vec<char>, i: usize, j: usize, limit: u128) -> (r: Option<u128>)
    requires
        i <= j <= v@.len(),
        forall|m: int| i <= m < j ==> is_digit(#[trigger] v@[m]),
        limit < u128::MAX / 10,
    ensures
        match r {
            Some(n) => n == digits_value(v@.subrange(i as int, j as int)) && n <= limit,
            None => digits_value(v@.subrange(i as int, j as int)) > limit,
        },
{
    let mut acc: u128 = 0;
    let mut over = false;
    let mut m = i;
    assert(v@.subrange(i as int, i as int) =~= Seq::<char>::empty());
    while m < j
        invariant
            i <= m <= j <= v@.len(),
            forall|x: int| i <= x < j ==> is_digit(#[trigger] v@[x]),
            limit < u128::MAX / 10,
            !over ==> acc == digits_value(v@.subrange(i as int, m as int)) && acc <= limit,
            over ==> digits_value(v@.subrange(i as int, m as int)) > limit,
        decreases j - m,
    {
        let ghost prev = v@.subrange(i as int, m as int);
        let d = v[m];
        assert(is_digit(v@[m as int]));
        assert(v@.subrange(i as int, m + 1).drop_last() =~= prev);
        assert(v@.subrange(i as int, m + 1).last() == d);
        if !over {
            let dv: u128 = (d as u32 - 48) as u128;
            acc = acc * 10 + dv;
            if acc > limit {
                over = true;
            }
        }
        m = m + 1;
    }
    if over {
        None
    } else {
        Some(acc)
    }
}

pub fn scan_u32(v: &Vec<char>, i: usize) -> (r: Option<(u32, usize)>)
    requires
        i <= v@.len(),
    ensures
        match r {
            Some((n, e)) => parse_u32(v@, i as int) == Some((n, e as int)) && i < e <= v@.len(),
            None => parse_u32(v@, i as int) is None,
        },
{
    let e = scan_run(v, i, CharClass::Digit);
    proof {
        lemma_run_end(v@, i as int, CharClass::Digit);
    }
    if e == i {
        return None;
    }
    match digits_up_to(v, i, e, 0xffff_ffff) {
        Some(n) => Some((n as u32, e)),
        None => None,
    }
}

pub fn scan_i64(v: &Vec<char>, i: usize) -> (r: Option<(i64, usize)>)
    requires
        i <= v@.len(),
    ensures
        match r {
            Some((n, e)) => parse_i64(v@, i as int) == Some((n, e as int)) && i < e <= v@.len(),
            None => parse_i64(v@, i as int) is None,
        },
{
    let negative = char_is(v, i, '-');
    let j = if negative || char_is(v, i, '+') {
        i + 1
    } else {
        i
    };
    let e = scan_run(v, j, CharClass::Digit);
    proof {
        lemma_run_end(v@, j as int, CharClass::Digit);
    }
    if e == j {
        return None;
    }
    let limit: u128 = if negative {
        0x8000_0000_0000_0000
    } else {
        0x7fff_ffff_ffff_ffff
    };
    match digits_up_to(v, j, e, limit) {
        Some(m) => {
            if negative {
                let n: i64 = (0i128 - m as i128) as i64;
                Some((n, e))
            } else {
                Some((m as i64, e))
            }
        },
        None => None,
    }
}

pub fn scan_number(v: &Vec<char>, i: usize) -> (r: Option<usize>)
    requires
        i <= v@.len(),
    ensures
        match r {
            Some(e) => number_end(v@, i as int) == Some(e as int) && i < e <= v@.len(),
            None => number_end(v@, i as int) is None,
        },
{
    let a = if char_is(v, i, '-') || char_is(v, i, '+') {
        i + 1
    } else {
        i
    };
    let b = scan_run(v, a, CharClass::Digit);
    let has_point = char_is(v, b, '.');
    let c = if has_point {
        scan_run(v, b + 1, CharClass::Digit)
    } else {
        b
    };
    if !(b > a || (has_point && c > b + 1)) {
        return None;
    }
    if char_is(v, c, 'e') || char_is(v, c, 'E') {
        let d = if char_is(v, c + 1, '-') || char_is(v, c + 1, '+') {
            c + 2
        } else {
            c + 1
        };
        let e = scan_run(v, d, CharClass::Digit);
        if e > d {
            Some(e)
        } else {
            Some(c)
        }
    } else {
        Some(c)
    }
}

pub fn scan_quoted(v: &Vec<char>, i: usize) -> (r: Option<usize>)
    requires
        i <= v@.len(),
    ensures
        match r {
            Some(e) => parse_quoted(v@, i as int) == Some(e as int) && i + 2 <= e <= v@.len(),
            None => parse_quoted(v@, i as int) is None,
        },
{
    if !char_is(v, i, '"') {
        return None;
    }
    let e = scan_run(v, i + 1, CharClass::NotQuote);
    if char_is(v, e, '"') {
        Some(e + 1)
    } else {
        None
    }
}

pub fn scan_line_endings(v: &Vec<char>, i: usize) -> (e: usize)
    requires
        i <= v@.len(),
    ensures
        e == line_endings_end(v@, i as int),
        i <= e <= v@.len(),
{
    let mut j = i;
    let n = v.len();
    loop
        invariant
            i <= j <= v@.len(),
            n == v@.len(),
            line_endings_end(v@, i as int) == line_endings_end(v@, j as int),
        decreases v@.len() - j,
    {
        if char_is(v, j, '\n') {
            j = j + 1;
        } else if char_is(v, j, '\r') && char_is(v, j + 1, '\n') {
            j = j + 2;
        } else {
            return j;
        }
    }
}

pub fn scan_name(v: &Vec<char>, i: usize) -> (r: Option<usize>)
    requires
        i <= v@.len(),
    ensures
        match r {
            Some(e) => parse_name(v@, i as int) == Some(e as int) && i < e <= v@.len(),
            None => parse_name(v@, i as int) is None,
        },
{
    let e = scan_ident(v, i);
    if e > i && !keyword_range(v, i, e) {
        Some(e)
    } else {
        None
    }
}


/// The decimal notation of `n`, followed by anything but a digit, reads
/// back as `n`.
pub proof fn lemma_digits_text(s: Seq<char>, p: int, n: nat)
    requires
        0 <= p,
        p + nat_text(n).len() <= s.len(),
        s.subrange(p, p + nat_text(n).len()) == nat_text(n),
        p + nat_text(n).len() < s.len() ==> !is_digit(s[p + nat_text(n).len()]),
    ensures
        run_end(s, p, CharClass::Digit) == p + nat_text(n).len(),
        digits_value(s.subrange(p, run_end(s, p, CharClass::Digit))) == n,
        nat_text(n).len() > 0,
{
    let l = nat_text(n).len() as int;
    lemma_nat_text_digits(n);
    assert forall|m: int| p <= m < p + l implies in_class(CharClass::Digit, #[trigger] s[m]) by {
        assert(s[m] == s.subrange(p, p + l)[m - p]);
    }
    lemma_run_end_at(s, p, p + l, CharClass::Digit);
}

/// The decimal notation of a `u32`, followed by anything but a digit, parses
/// back to it.
pub proof fn lemma_parse_u32_text(s: Seq<char>, p: int, n: u32)
    requires
        0 <= p,
        p + nat_text(n as nat).len() <= s.len(),
        s.subrange(p, p + nat_text(n as nat).len()) == nat_text(n as nat),
        p + nat_text(n as nat).len() < s.len() ==> !is_digit(s[p + nat_text(n as nat).len()]),
    ensures
        parse_u32(s, p) == Some((n, p + nat_text(n as nat).len())),
{
    lemma_digits_text(s, p, n as nat);
}

/// The decimal notation of an `i64`, followed by anything but a digit,
/// parses back to it.
pub proof fn lemma_parse_i64_text(s: Seq<char>, p: int, n: i64)
    requires
        0 <= p,
        p + int_text(n as int).len() <= s.len(),
        s.subrange(p, p + int_text(n as int).len()) == int_text(n as int),
        p + int_text(n as int).len() < s.len() ==> !is_digit(s[p + int_text(n as int).len()]),
    ensures
        parse_i64(s, p) == Some((n, p + int_text(n as int).len())),
        int_text(n as int).len() > 0,
{
    let l = int_text(n as int).len() as int;
    if n < 0 {
        let m = (-n) as nat;
        assert(s[p] == int_text(n as int)[0]);
        assert(s.subrange(p + 1, p + l) =~= s.subrange(p, p + l).subrange(1, l));
        assert(int_text(n as int).subrange(1, l) =~= nat_text(m));
        lemma_digits_text(s, p + 1, m);
    } else {
        lemma_nat_text_digits(n as nat);
        assert(s[p] == nat_text(n as nat)[0]);
        assert(is_digit(nat_text(n as nat)[0]));
        lemma_digits_text(s, p, n as nat);
    }
}

/// A name, followed by anything that cannot continue an identifier, parses
/// back to it.
pub proof fn lemma_parse_name_text(s: Seq<char>, p: int, w: Seq<char>)
    requires
        0 <= p,
        is_dbc_name(w),
        p + w.len() <= s.len(),
        s.subrange(p, p + w.len()) == w,
        p + w.len() < s.len() ==> !is_ident_char(s[p + w.len()]),
    ensures
        parse_name(s, p) == Some(p + w.len()),
{
    assert(s[p] == w[0]);
    assert forall|m: int| p <= m < p + w.len() implies in_class(
        CharClass::IdentChar,
        #[trigger] s[m],
    ) by {
        assert(s[m] == w[m - p]);
    }
    lemma_run_end_at(s, p, p + w.len(), CharClass::IdentChar);
}

/// A text without double quotes, in double quotes, parses back to it.
pub proof fn lemma_parse_quoted_text(s: Seq<char>, p: int, w: Seq<char>)
    requires
        0 <= p,
        forall|j: int| 0 <= j < w.len() ==> #[trigger] w[j] != '"',
        p + w.len() + 2 <= s.len(),
        s.subrange(p, p + w.len() + 2) == seq!['"'] + w + seq!['"'],
    ensures
        parse_quoted(s, p) == Some(p + w.len() + 2),
{
    let q = seq!['"'] + w + seq!['"'];
    assert(s[p] == q[0]);
    assert(s[p + w.len() + 1] == q[w.len() + 1 as int]);
    assert forall|m: int| p + 1 <= m < p + 1 + w.len() implies in_class(
        CharClass::NotQuote,
        #[trigger] s[m],
    ) by {
        assert(s[m] == q[m - p]);
        assert(q[m - p] == w[m - p - 1]);
    }
    lemma_run_end_at(s, p + 1, p + 1 + w.len(), CharClass::NotQuote);
}

/// Whether `w` is one whole decimal number as `number_end` reads it.
pub open spec fn is_number_text(w: Seq<char>) -> bool {
    number_end(w, 0) == Some(w.len() as int)
}

/// Whether `c` may follow a number without continuing it.
pub open spec fn ends_number(c: char) -> bool {
    !is_digit(c) && c != '.' && c != 'e' && c != 'E' && c != '+' && c != '-'
}

/// A run inside a copy of `w` in `s` ends where it ends in `w`, as long as
/// it stops inside `w` or the character after the copy stops it too.
pub proof fn lemma_run_end_local(s: Seq<char>, p: int, w: Seq<char>, i: int, k: CharClass)
    requires
        0 <= p,
        p + w.len() <= s.len(),
        s.subrange(p, p + w.len()) == w,
        0 <= i <= w.len(),
        run_end(w, i, k) < w.len() || p + w.len() == s.len() || !in_class(k, s[p + w.len()]),
    ensures
        run_end(s, p + i, k) == p + run_end(w, i, k),
    decreases w.len() - i,
{
    if i < w.len() {
        assert(s[p + i] == w[i]);
        if in_class(k, w[i]) {
            lemma_run_end_local(s, p, w, i + 1, k);
        }
    }
}

/// A whole number, followed by a character that cannot continue it, reads
/// back as that number.
pub proof fn lemma_number_text(s: Seq<char>, p: int, w: Seq<char>)
    requires
        0 <= p,
        p + w.len() < s.len(),
        s.subrange(p, p + w.len()) == w,
        is_number_text(w),
        ends_number(s[p + w.len()]),
    ensures
        number_end(s, p) == Some(p + w.len()),
{
    let l = w.len() as int;
    assert forall|j: int| 0 <= j < l implies s[p + j] == #[trigger] w[j] by {
        assert(s.subrange(p, p + l)[j] == s[p + j]);
    }
    let a = sign_end(w, 0);
    assert(sign_end(s, p) == p + a);
    lemma_run_end(w, a, CharClass::Digit);
    lemma_run_end_local(s, p, w, a, CharClass::Digit);
    let b = run_end(w, a, CharClass::Digit);
    assert(char_at(s, p + b, '.') == char_at(w, b, '.'));
    let has_point = char_at(w, b, '.');
    if has_point {
        lemma_run_end(w, b + 1, CharClass::Digit);
        lemma_run_end_local(s, p, w, b + 1, CharClass::Digit);
    }
    let c = if has_point {
        run_end(w, b + 1, CharClass::Digit)
    } else {
        b
    };
    assert(char_at(s, p + c, 'e') == char_at(w, c, 'e'));
    assert(char_at(s, p + c, 'E') == char_at(w, c, 'E'));
    if char_at(w, c, 'e') || char_at(w, c, 'E') {
        let d = sign_end(w, c + 1);
        assert(sign_end(s, p + c + 1) == p + d);
        lemma_run_end(w, d, CharClass::Digit);
        lemma_run_end_local(s, p, w, d, CharClass::Digit);
    }
}

/// A C identifier: a letter or `_`, then letters, digits and `_`.
pub open spec fn is_c_identifier(w: Seq<char>) -> bool {
    &&& w.len() > 0
    &&& is_ident_start(w[0])
    &&& forall|j: int| 0 <= j < w.len() ==> is_ident_char(#[trigger] w[j])
}

/// A C identifier, followed by anything that cannot continue it, is read
/// whole.
pub proof fn lemma_ident_end_text(s: Seq<char>, p: int, w: Seq<char>)
    requires
        0 <= p,
        is_c_identifier(w),
        p + w.len() <= s.len(),
        s.subrange(p, p + w.len()) == w,
        p + w.len() < s.len() ==> !is_ident_char(s[p + w.len()]),
    ensures
        ident_end(s, p) == p + w.len(),
{
    assert(s[p] == w[0]);
    assert forall|m: int| p <= m < p + w.len() implies in_class(
        CharClass::IdentChar,
        #[trigger] s[m],
    ) by {
        assert(s[m] == w[m - p]);
    }
    lemma_run_end_at(s, p, p + w.len(), CharClass::IdentChar);
}

/// A copy of `w` at `p` holds the copy of each part of `w`.
pub proof fn lemma_sub(s: Seq<char>, p: int, w: Seq<char>, j: int, k: int)
    requires
        0 <= p,
        p + w.len() <= s.len(),
        s.subrange(p, p + w.len()) == w,
        0 <= j <= k <= w.len(),
    ensures
        s.subrange(p + j, p + k) == w.subrange(j, k),
        forall|m: int| j <= m < k ==> s[p + m] == #[trigger] w[m],
{
    assert(s.subrange(p + j, p + k) =~= w.subrange(j, k));
    assert forall|m: int| j <= m < k implies s[p + m] == #[trigger] w[m] by {
        assert(s.subrange(p, p + w.len())[m] == s[p + m]);
    }
}

/// A whole number starts with a sign, a digit or a point.
pub proof fn lemma_number_text_first(w: Seq<char>)
    requires
        is_number_text(w),
    ensures
        w.len() > 0,
        is_digit(w[0]) || w[0] == '-' || w[0] == '+' || w[0] == '.',
{
    let a = sign_end(w, 0);
    lemma_run_end(w, a, CharClass::Digit);
    if w.len() == 0 {
        assert(a == 0);
        assert(run_end(w, 0, CharClass::Digit) == 0);
    } else if a == 0 {
        let b = run_end(w, 0, CharClass::Digit);
        if b == 0 {
            assert(char_at(w, 0, '.'));
        }
    }
}

/// The input without the white space (line breaks included) it starts with.
pub open spec fn without_leading_space(s: Seq<char>) -> Seq<char> {
    s.subrange(skip_multispace(s, 0), s.len() as int)
}

/// A run in `w + s` that starts inside `s` is the run in `s`, moved by the
/// length of `w`.
pub proof fn lemma_run_end_prefix(w: Seq<char>, s: Seq<char>, i: int, k: CharClass)
    requires
        0 <= i,
    ensures
        run_end(w + s, w.len() + i, k) == w.len() + run_end(s, i, k),
    decreases s.len() - i,
{
    let t = w + s;
    if i < s.len() {
        assert(t[w.len() + i] == s[i]);
        if in_class(k, s[i]) {
            lemma_run_end_prefix(w, s, i + 1, k);
        }
    }
}

/// A run goes on through characters of its class.
pub proof fn lemma_run_end_through(s: Seq<char>, i: int, j: int, k: CharClass)
    requires
        0 <= i <= j <= s.len(),
        forall|m: int| i <= m < j ==> in_class(k, #[trigger] s[m]),
    ensures
        run_end(s, i, k) == run_end(s, j, k),
    decreases j - i,
{
    if i < j {
        lemma_run_end_through(s, i + 1, j, k);
    }
}

/// White space written before an input is dropped with the white space the
/// input starts with.
pub proof fn lemma_leading_space_dropped(w: Seq<char>, s: Seq<char>)
    requires
        forall|j: int| 0 <= j < w.len() ==> is_multispace(#[trigger] w[j]),
    ensures
        without_leading_space(w + s) == without_leading_space(s),
{
    let t = w + s;
    assert forall|m: int| 0 <= m < w.len() implies in_class(CharClass::Multispace, #[trigger] t[m]) by {
        assert(t[m] == w[m]);
    }
    lemma_run_end_through(t, 0, w.len() as int, CharClass::Multispace);
    lemma_run_end_prefix(w, s, 0, CharClass::Multispace);
    lemma_run_end(s, 0, CharClass::Multispace);
    let p = skip_multispace(s, 0);
    assert(t.subrange(w.len() + p, t.len() as int) =~= s.subrange(p, s.len() as int));
}

/// A run ends at or after its start, and within the input where it starts
/// within it.
pub broadcast proof fn lemma_run_end_bounds(s: Seq<char>, i: int, k: CharClass)
    ensures
        i <= #[trigger] run_end(s, i, k),
        i <= s.len() ==> run_end(s, i, k) <= s.len(),
    decreases s.len() - i,
{
    if 0 <= i < s.len() && in_class(k, s[i]) {
        lemma_run_end_bounds(s, i + 1, k);
    }
}

/// Line endings end at or after their start, and within the input where
/// they start within it.
pub broadcast proof fn lemma_line_endings_end_bounds(s: Seq<char>, i: int)
    ensures
        i <= #[trigger] line_endings_end(s, i),
        i <= s.len() ==> line_endings_end(s, i) <= s.len(),
    decreases s.len() - i,
{
    if char_at(s, i, '\n') {
        lemma_line_endings_end_bounds(s, i + 1);
    } else if char_at(s, i, '\r') && char_at(s, i + 1, '\n') {
        lemma_line_endings_end_bounds(s, i + 2);
    }
}

pub broadcast group group_position_bounds {
    lemma_run_end_bounds,
    lemma_line_endings_end_bounds,
}

} // verus!
