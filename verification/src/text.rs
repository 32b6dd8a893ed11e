//! Characters and strings: the conversions between `str`, `String` and
//! sequences of characters that the parsers and printers build on, and the
//! decimal notation of integers.

use vstd::prelude::*;

verus! {

/// The characters of `s`, in order.
pub fn chars_of(s: &str) -> (v: Vec<char>)
    ensures
        v@ == s@,
{
    let mut v: Vec<char> = Vec::new();
    for c in it: s.chars()
        invariant
            v@ == it.seq().take(it.index() as int),
            it.seq() == s@,
    {
        v.push(c);
    }
    v
}

/// Appends one character: std's `String::push`, documented as appending
/// the given char to the end of the string.
#[verifier::external_body]
pub(crate) fn push_char(s: &mut String, c: char)
    ensures
        final(s)@ == old(s)@.push(c),
{
    s.push(c);
}

/// Appends the characters `cs[start..end]`.
pub fn push_range(s: &mut String, cs: &Vec<char>, start: usize, end: usize)
    requires
        start <= end <= cs@.len(),
    ensures
        final(s)@ == old(s)@ + cs@.subrange(start as int, end as int),
{
    let mut i = start;
    while i < end
        invariant
            start <= i <= end <= cs@.len(),
            s@ == old(s)@ + cs@.subrange(start as int, i as int),
        decreases end - i,
    {
        push_char(s, cs[i]);
        i = i + 1;
        assert(cs@.subrange(start as int, i as int) =~= cs@.subrange(start as int, i - 1).push(
            cs@[i - 1],
        ));
    }
}

/// Appends the characters of `cs`.
pub fn push_slice(s: &mut String, cs: &[char])
    ensures
        final(s)@ == old(s)@ + cs@,
{
    let n = cs.len();
    let mut i: usize = 0;
    while i < n
        invariant
            i <= n,
            n == cs@.len(),
            s@ == old(s)@ + cs@.take(i as int),
        decreases n - i,
    {
        push_char(s, cs[i]);
        assert(cs@.take(i + 1) =~= cs@.take(i as int).push(cs@[i as int]));
        i = i + 1;
    }
    assert(cs@.take(n as int) =~= cs@);
}

/// Appends all characters of `t`.
pub fn push_str(s: &mut String, t: &str)
    ensures
        final(s)@ == old(s)@ + t@,
{
    let cs = chars_of(t);
    push_range(s, &cs, 0, cs.len());
    assert(cs@.subrange(0, cs@.len() as int) =~= t@);
}

/// The characters of `cs` from `start` on.
pub fn chars_from(cs: &Vec<char>, start: usize) -> (r: Vec<char>)
    requires
        start <= cs@.len(),
    ensures
        r@ == cs@.subrange(start as int, cs@.len() as int),
{
    let n = cs.len();
    let mut r: Vec<char> = Vec::new();
    let mut i = start;
    while i < n
        invariant
            start <= i <= n,
            n == cs@.len(),
            r@ == cs@.subrange(start as int, i as int),
        decreases n - i,
    {
        r.push(cs[i]);
        i = i + 1;
        assert(r@ =~= cs@.subrange(start as int, i as int));
    }
    r
}

/// The string made of the characters `cs[start..end]`.
pub fn string_from_range(cs: &Vec<char>, start: usize, end: usize) -> (s: String)
    requires
        start <= end <= cs@.len(),
    ensures
        s@ == cs@.subrange(start as int, end as int),
{
    let mut s = String::new();
    push_range(&mut s, cs, start, end);
    s
}

/// What std's `Debug` writes for a string: the text in double quotes with
/// quotes, backslashes and unprintable characters escaped.
pub uninterp spec fn str_debug_text(s: Seq<char>) -> Seq<char>;

/// std's `Debug` formatting of a `str` (`format!("{:?}", s)`); the contract
/// names its result and says of the escaping only what std documents of
/// line breaks: they are written as `\n`, so the result holds none.
#[verifier::external_body]
pub(crate) fn str_debug(s: &str) -> (r: String)
    ensures
        r@ == str_debug_text(s@),
        forall|j: int| 0 <= j < r@.len() ==> r@[j] != '\n',
{
    format!("{:?}", s)
}

/// The decimal digit character for `d` (in `0..10`).
pub open spec fn digit_char(d: int) -> char {
    (d + 48) as char
}

/// Whether `c` is one of `'0'..='9'`.
pub open spec fn is_digit(c: char) -> bool {
    '0' <= c <= '9'
}

/// The value of the decimal digit `c`.
pub open spec fn digit_value(c: char) -> int {
    c as int - 48
}

/// The decimal notation of `n`: no sign and no leading zero.
pub open spec fn nat_text(n: nat) -> Seq<char>
    decreases n,
{
    if n < 10 {
        seq![digit_char(n as int)]
    } else {
        nat_text(n / 10).push(digit_char((n % 10) as int))
    }
}

/// The decimal notation of `n`, with `-` before a negative number.
pub open spec fn int_text(n: int) -> Seq<char> {
    if n < 0 {
        seq!['-'] + nat_text((-n) as nat)
    } else {
        nat_text(n as nat)
    }
}

/// The value of a sequence of decimal digits, most significant first.
pub open spec fn digits_value(d: Seq<char>) -> nat
    decreases d.len(),
{
    if d.len() == 0 {
        0
    } else {
        (digits_value(d.drop_last()) * 10 + digit_value(d.last())) as nat
    }
}

fn digit_char_exec(d: u64) -> (c: char)
    requires
        d < 10,
    ensures
        c == digit_char(d as int),
{
    let b: u8 = 48u8 + d as u8;
    b as char
}

/// Appends the decimal notation of `n`.
pub fn push_u64(s: &mut String, n: u64)
    ensures
        final(s)@ == old(s)@ + nat_text(n as nat),
    decreases n,
{
    if n >= 10 {
        push_u64(s, n / 10);
    }
    push_char(s, digit_char_exec(n % 10));
    assert(s@ =~= old(s)@ + nat_text(n as nat));
}

/// Appends the decimal notation of `n`, with `-` before a negative number.
pub fn push_i64(s: &mut String, n: i64)
    ensures
        final(s)@ == old(s)@ + int_text(n as int),
{
    if n < 0 {
        push_char(s, '-');
        let m: u64 = (0i128 - n as i128) as u64;
        push_u64(s, m);
        assert(s@ =~= old(s)@ + int_text(n as int));
    } else {
        push_u64(s, n as u64);
    }
}

/// Every character of the decimal notation of `n` is a digit.
pub proof fn lemma_nat_text_digits(n: nat)
    ensures
        nat_text(n).len() > 0,
        forall|i: int| 0 <= i < nat_text(n).len() ==> is_digit(#[trigger] nat_text(n)[i]),
        digits_value(nat_text(n)) == n,
    decreases n,
{
    if n >= 10 {
        lemma_nat_text_digits(n / 10);
        assert(nat_text(n).drop_last() =~= nat_text(n / 10));
        assert(digit_value(digit_char((n % 10) as int)) == n % 10);
        assert(n == (n / 10) * 10 + n % 10);
        assert(nat_text(n).last() == digit_char((n % 10) as int));
    } else {
        assert(digits_value(Seq::<char>::empty()) == 0);
        assert(digit_value(digit_char(n as int)) == n);
        assert(nat_text(n).drop_last() =~= Seq::<char>::empty());
    }
}

/// The views of a list of strings.
pub open spec fn strings_view(v: Seq<String>) -> Seq<Seq<char>> {
    v.map_values(|x: String| x@)
}

/// The words `ws`, each with `sep` written before it.
pub open spec fn join_prefixed(ws: Seq<Seq<char>>, sep: Seq<char>) -> Seq<char>
    decreases ws.len(),
{
    if ws.len() == 0 {
        Seq::empty()
    } else {
        join_prefixed(ws.drop_last(), sep) + sep + ws.last()
    }
}

/// `join_prefixed` read from the front: the separator, the first word, and
/// the others.
pub proof fn lemma_join_prefixed_first(ws: Seq<Seq<char>>, sep: Seq<char>)
    requires
        ws.len() > 0,
    ensures
        join_prefixed(ws, sep) == sep + ws[0] + join_prefixed(ws.drop_first(), sep),
    decreases ws.len(),
{
    if ws.len() == 1 {
        assert(ws.drop_last() =~= Seq::<Seq<char>>::empty());
        assert(ws.drop_first() =~= Seq::<Seq<char>>::empty());
        assert(join_prefixed(ws.drop_last(), sep) == Seq::<char>::empty());
        assert(join_prefixed(ws.drop_first(), sep) == Seq::<char>::empty());
        assert(join_prefixed(ws, sep) =~= sep + ws[0]);
    } else {
        lemma_join_prefixed_first(ws.drop_last(), sep);
        assert(ws.drop_last().drop_first() =~= ws.drop_first().drop_last());
        assert(ws.drop_first().last() == ws.last());
        assert(join_prefixed(ws, sep) =~= sep + ws[0] + join_prefixed(ws.drop_first(), sep));
    }
}

/// Appends the strings `ws[start..]`, each with `sep` before it.
pub fn push_prefixed(out: &mut String, ws: &Vec<String>, start: usize, sep: &str)
    requires
        start <= ws@.len(),
    ensures
        final(out)@ == old(out)@ + join_prefixed(strings_view(ws@).skip(start as int), sep@),
{
    let ghost all = strings_view(ws@).skip(start as int);
    let n = ws.len();
    let mut k = start;
    assert(all.take(0) =~= Seq::<Seq<char>>::empty());
    while k < n
        invariant
            start <= k <= n,
            n == ws@.len(),
            all == strings_view(ws@).skip(start as int),
            out@ == old(out)@ + join_prefixed(all.take(k - start), sep@),
        decreases n - k,
    {
        push_str(out, sep);
        push_str(out, ws[k].as_str());
        proof {
            let t = all.take(k - start + 1);
            assert(t.drop_last() =~= all.take(k - start));
            assert(t.last() == ws@[k as int]@);
        }
        k = k + 1;
        assert(out@ =~= old(out)@ + join_prefixed(all.take(k - start), sep@));
    }
    assert(all.take(n - start) =~= all);
}

} // verus!
