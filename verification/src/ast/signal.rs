//! Signals of a message:
//! `SG_ name [multiplexer] : start|size@order sign (factor,offset) [min|max] "unit" receivers`,
//! e.g. `SG_ Yaw_Rate : 0|16@1+ (0.005,-163.84) [-163.84|163.83] "°/s"  ABS`.
//!
//! The numbers of the scaling and of the range are kept as they are written
//! (a decimal number with an optional exponent), so that they keep their
//! exact decimal value.

use vstd::prelude::*;
use crate::text::{
    join_prefixed, lemma_join_prefixed_first, nat_text, push_char, push_prefixed, push_slice,
    push_str, push_u64, string_from_range, strings_view,
};
use super::common_parsers::{
    char_at, char_is, has_tag, is_dbc_name, is_number_text, lemma_number_text, lemma_number_text_first, lemma_parse_name_text, lemma_parse_quoted_text,
    lemma_parse_u32_text, lemma_run_end_at, lemma_sub, number_end, parse_name, parse_quoted,
    parse_u32, scan_name, scan_number, scan_quoted, scan_space, scan_u32, skip_space, tag_at,
    CharClass,
};

verus! {

#[derive(Clone, Copy, Debug, PartialEq, Eq)]
pub enum ByteOrder {
    LittleEndian,
    BigEndian,
}

#[derive(Clone, Copy, Debug, PartialEq, Eq)]
pub enum ValueType {
    Signed,
    Unsigned,
}

/// The part a signal plays in multiplexing: `M` for the multiplexor, `m3`
/// for a signal sent when the multiplexor is 3, `m3M` for both.
#[derive(Clone, Copy, Debug, PartialEq, Eq)]
pub enum MultiplexIndicator {
    Multiplexor,
    MultiplexedSignal(u32),
    MultiplexorAndMultiplexedSignal(u32),
}

#[derive(Clone, Debug, PartialEq)]
pub struct Signal {
    pub name: String,
    pub multiplexer: Option<MultiplexIndicator>,
    pub start_bit: u32,
    pub size: u32,
    pub byte_order: ByteOrder,
    pub value_type: ValueType,
    /// The factor, as written.
    pub factor: String,
    /// The offset, as written.
    pub offset: String,
    /// The least physical value, as written.
    pub min: Option<String>,
    /// The greatest physical value, as written.
    pub max: Option<String>,
    pub unit: Option<String>,
    pub receivers: Option<Vec<String>>,
}

/// A signal as a mathematical value.
pub struct SpecSignal {
    pub name: Seq<char>,
    pub multiplexer: Option<MultiplexIndicator>,
    pub start_bit: u32,
    pub size: u32,
    pub byte_order: ByteOrder,
    pub value_type: ValueType,
    pub factor: Seq<char>,
    pub offset: Seq<char>,
    pub min: Option<Seq<char>>,
    pub max: Option<Seq<char>>,
    pub unit: Option<Seq<char>>,
    pub receivers: Option<Seq<Seq<char>>>,
}

pub open spec fn opt_string_view(o: Option<String>) -> Option<Seq<char>> {
    match o {
        Some(s) => Some(s@),
        None => None,
    }
}

impl View for Signal {
    type V = SpecSignal;

    open spec fn view(&self) -> SpecSignal {
        SpecSignal {
            name: self.name@,
            multiplexer: self.multiplexer,
            start_bit: self.start_bit,
            size: self.size,
            byte_order: self.byte_order,
            value_type: self.value_type,
            factor: self.factor@,
            offset: self.offset@,
            min: opt_string_view(self.min),
            max: opt_string_view(self.max),
            unit: opt_string_view(self.unit),
            receivers: match self.receivers {
                Some(rs) => Some(strings_view(rs@)),
                None => None,
            },
        }
    }
}

pub open spec fn signal_keyword() -> Seq<char> {
    seq!['S', 'G', '_']
}

/// The multiplexer indicator at `i` and its end.
pub open spec fn parse_multiplexer(s: Seq<char>, i: int) -> Option<(MultiplexIndicator, int)> {
    if char_at(s, i, 'M') {
        Some((MultiplexIndicator::Multiplexor, i + 1))
    } else if char_at(s, i, 'm') {
        match parse_u32(s, i + 1) {
            Some((n, e)) => if char_at(s, e, 'M') {
                Some((MultiplexIndicator::MultiplexorAndMultiplexedSignal(n), e + 1))
            } else {
                Some((MultiplexIndicator::MultiplexedSignal(n), e))
            },
            None => None,
        }
    } else {
        None
    }
}

/// The position after the spaces, the character `c` and the spaces at `i`.
pub open spec fn after_char(s: Seq<char>, i: int, c: char) -> Option<int> {
    let a = skip_space(s, i);
    if char_at(s, a, c) {
        Some(skip_space(s, a + 1))
    } else {
        None
    }
}

/// The layout at `i`: `start|size@order sign`, with spaces allowed between
/// the parts; the start bit, the size, the byte order (`1` little endian,
/// `0` big endian), the value type (`+` unsigned, `-` signed) and the end.
pub open spec fn parse_layout(s: Seq<char>, i: int) -> Option<
    (u32, u32, ByteOrder, ValueType, int),
> {
    match parse_u32(s, i) {
        None => None,
        Some((start, a)) => match after_char(s, a, '|') {
            None => None,
            Some(b) => match parse_u32(s, b) {
                None => None,
                Some((size, c)) => match after_char(s, c, '@') {
                    None => None,
                    Some(d) => {
                        let order = if char_at(s, d, '1') {
                            Some(ByteOrder::LittleEndian)
                        } else if char_at(s, d, '0') {
                            Some(ByteOrder::BigEndian)
                        } else {
                            None
                        };
                        let e = skip_space(s, d + 1);
                        let vt = if char_at(s, e, '+') {
                            Some(ValueType::Unsigned)
                        } else if char_at(s, e, '-') {
                            Some(ValueType::Signed)
                        } else {
                            None
                        };
                        match (order, vt) {
                            (Some(o), Some(t)) => Some((start, size, o, t, e + 1)),
                            _ => None,
                        }
                    },
                },
            },
        },
    }
}

/// Two numbers at `i` between `open` and `close`, separated by `sep`, with
/// spaces allowed around each part; the two numbers as written and the end.
pub open spec fn parse_number_pair(s: Seq<char>, i: int, open: char, sep: char, close: char) -> Option<
    (Seq<char>, Seq<char>, int),
> {
    match after_char(s, i, open) {
        None => None,
        Some(a) => match number_end(s, a) {
            None => None,
            Some(b) => match after_char(s, b, sep) {
                None => None,
                Some(c) => match number_end(s, c) {
                    None => None,
                    Some(d) => {
                        let e = skip_space(s, d);
                        if char_at(s, e, close) {
                            Some((s.subrange(a, b), s.subrange(c, d), e + 1))
                        } else {
                            None
                        }
                    },
                },
            },
        },
    }
}

/// The receivers after the first, each after spaces, a comma and spaces.
pub open spec fn parse_more_receivers(s: Seq<char>, j: int) -> (Seq<Seq<char>>, int)
    decreases s.len() - j,
{
    match after_char(s, j, ',') {
        None => (Seq::empty(), j),
        Some(b) => match parse_name(s, b) {
            Some(e) => if j < e <= s.len() {
                let (rest, m) = parse_more_receivers(s, e);
                (seq![s.subrange(b, e)] + rest, m)
            } else {
                (Seq::empty(), j)
            },
            None => (Seq::empty(), j),
        },
    }
}

/// The receivers at `i`: names separated by commas; none where no name
/// stands at `i`.
pub open spec fn parse_receivers(s: Seq<char>, i: int) -> (Seq<Seq<char>>, int) {
    match parse_name(s, i) {
        Some(e) => {
            let (rest, m) = parse_more_receivers(s, e);
            (seq![s.subrange(i, e)] + rest, m)
        },
        None => (Seq::empty(), i),
    }
}

/// The signal that starts at `i`, and the position after it.
pub open spec fn parse_signal_at(s: Seq<char>, i: int) -> Option<(SpecSignal, int)> {
    let a = skip_space(s, i + 3);
    if !has_tag(s, i, signal_keyword()) {
        None
    } else {
        match parse_name(s, a) {
            None => None,
            Some(b) => {
                let c = skip_space(s, b);
                let (mux, d) = match parse_multiplexer(s, c) {
                    Some((m, e)) => (Some(m), e),
                    None => (None, c),
                };
                match after_char(s, d, ':') {
                    None => None,
                    Some(l0) => match parse_layout(s, l0) {
                        None => None,
                        Some((start_bit, size, byte_order, value_type, l1)) => match parse_number_pair(
                            s,
                            l1,
                            '(',
                            ',',
                            ')',
                        ) {
                            None => None,
                            Some((factor, offset, m1)) => {
                                let r0 = skip_space(s, m1);
                                let (min, max, u0) = match parse_number_pair(s, r0, '[', '|', ']') {
                                    Some((lo, hi, r1)) => (Some(lo), Some(hi), skip_space(s, r1)),
                                    None => (None, None, r0),
                                };
                                let (unit, v0) = match parse_quoted(s, u0) {
                                    Some(u1) => (Some(s.subrange(u0 + 1, u1 - 1)), skip_space(s, u1)),
                                    None => (None, u0),
                                };
                                let (rs, w) = parse_receivers(s, v0);
                                Some(
                                    (
                                        SpecSignal {
                                            name: s.subrange(a, b),
                                            multiplexer: mux,
                                            start_bit,
                                            size,
                                            byte_order,
                                            value_type,
                                            factor,
                                            offset,
                                            min,
                                            max,
                                            unit,
                                            receivers: if rs.len() == 0 {
                                                None
                                            } else {
                                                Some(rs)
                                            },
                                        },
                                        w,
                                    ),
                                )
                            },
                        },
                    },
                }
            },
        }
    }
}

/// The receivers after the first end at or after `j`, and within the input.
pub proof fn lemma_more_receivers_bounds(s: Seq<char>, j: int)
    requires
        0 <= j <= s.len(),
    ensures
        j <= parse_more_receivers(s, j).1 <= s.len(),
    decreases s.len() - j,
{
    match after_char(s, j, ',') {
        Some(b) => match parse_name(s, b) {
            Some(e) => if j < e <= s.len() {
                lemma_more_receivers_bounds(s, e);
            },
            None => {},
        },
        None => {},
    }
}

/// Every receiver after a comma is read, the last of the input included:
/// where a name follows the comma at `j`, the receivers read from `j` are
/// that name, then the receivers read after it.
pub proof fn lemma_more_receivers_read_name(s: Seq<char>, j: int)
    requires
        0 <= j <= s.len(),
        after_char(s, j, ',') is Some,
        parse_name(s, after_char(s, j, ',').unwrap()) is Some,
    ensures
        ({
            let b = after_char(s, j, ',').unwrap();
            let e = parse_name(s, b).unwrap();
            parse_more_receivers(s, j) == (
                seq![s.subrange(b, e)] + parse_more_receivers(s, e).0,
                parse_more_receivers(s, e).1,
            )
        }),
{
    broadcast use super::common_parsers::group_position_bounds;

}

/// A signal read at `i` ends after `i`, within the input.
pub proof fn lemma_signal_end_bounds(s: Seq<char>, i: int)
    requires
        0 <= i,
    ensures
        parse_signal_at(s, i) matches Some((_, e)) ==> i < e <= s.len(),
{
    broadcast use super::common_parsers::group_position_bounds;

    if let Some((g, w)) = parse_signal_at(s, i) {
        let a = skip_space(s, i + 3);
        let b = parse_name(s, a).unwrap();
        let c = skip_space(s, b);
        let d = match parse_multiplexer(s, c) {
            Some((m, e)) => e,
            None => c,
        };
        let l0 = after_char(s, d, ':').unwrap();
        let l1 = parse_layout(s, l0).unwrap().4;
        let m1 = parse_number_pair(s, l1, '(', ',', ')').unwrap().2;
        let r0 = skip_space(s, m1);
        let u0 = match parse_number_pair(s, r0, '[', '|', ']') {
            Some((lo, hi, r1)) => skip_space(s, r1),
            None => r0,
        };
        let v0 = match parse_quoted(s, u0) {
            Some(u1) => skip_space(s, u1),
            None => u0,
        };
        assert(i + 3 <= a <= s.len());
        assert(a < b <= s.len());
        assert(b <= d <= s.len());
        assert(d < l0 <= s.len());
        assert(l0 < l1 <= s.len());
        assert(l1 < m1 <= s.len());
        assert(m1 <= v0 <= s.len());
        match parse_name(s, v0) {
            Some(e) => lemma_more_receivers_bounds(s, e),
            None => {},
        }
    }
}

/// How a multiplexer indicator is written.
pub open spec fn multiplexer_text(m: MultiplexIndicator) -> Seq<char> {
    match m {
        MultiplexIndicator::Multiplexor => seq!['M'],
        MultiplexIndicator::MultiplexedSignal(n) => seq!['m'] + nat_text(n as nat),
        MultiplexIndicator::MultiplexorAndMultiplexedSignal(n) => seq!['m'] + nat_text(n as nat)
            + seq!['M'],
    }
}

/// How a signal is written:
/// `SG_ name [mux ]: start|size@order sign (factor,offset)`, then
/// ` [min|max]` where both bounds are known, ` "unit"` where there is a
/// unit, and ` r1,r2` where there are receivers.
#[verifier::opaque]
pub open spec fn signal_text(g: SpecSignal) -> Seq<char> {
    signal_head_text(g) + signal_layout_text(g) + signal_tail_text(g)
}

/// `SG_ name `, and the multiplexer indicator and a space where there is one.
pub open spec fn signal_head_text(g: SpecSignal) -> Seq<char> {
    signal_keyword() + seq![' '] + g.name + seq![' '] + match g.multiplexer {
        Some(m) => multiplexer_text(m) + seq![' '],
        None => Seq::empty(),
    }
}

/// `: start|size@order sign (factor,offset)`.
pub open spec fn signal_layout_text(g: SpecSignal) -> Seq<char> {
    seq![':', ' '] + nat_text(g.start_bit as nat) + seq!['|'] + nat_text(g.size as nat) + seq![
        '@',
        match g.byte_order {
            ByteOrder::LittleEndian => '1',
            ByteOrder::BigEndian => '0',
        },
        match g.value_type {
            ValueType::Unsigned => '+',
            ValueType::Signed => '-',
        },
        ' ',
        '(',
    ] + g.factor + seq![','] + g.offset + seq![')']
}

/// The range, the unit and the receivers, each after a space, where known.
pub open spec fn signal_tail_text(g: SpecSignal) -> Seq<char> {
    range_text(g.min, g.max) + unit_text(g.unit) + receivers_text(g.receivers)
}

/// ` [min|max]` where both bounds are known.
pub open spec fn range_text(min: Option<Seq<char>>, max: Option<Seq<char>>) -> Seq<char> {
    match (min, max) {
        (Some(lo), Some(hi)) => seq![' ', '['] + lo + seq!['|'] + hi + seq![']'],
        _ => Seq::empty(),
    }
}

/// ` "unit"` where there is a unit.
pub open spec fn unit_text(unit: Option<Seq<char>>) -> Seq<char> {
    match unit {
        Some(u) => seq![' ', '"'] + u + seq!['"'],
        None => Seq::empty(),
    }
}

/// ` r1,r2` where there are receivers.
pub open spec fn receivers_text(receivers: Option<Seq<Seq<char>>>) -> Seq<char> {
    match receivers {
        Some(rs) => if rs.len() == 0 {
            seq![' ']
        } else {
            seq![' '] + rs[0] + join_prefixed(rs.drop_first(), seq![','])
        },
        None => Seq::empty(),
    }
}

/// What a signal needs for its written form to read back as the same
/// signal: names of the format, whole numbers, both bounds or neither, a
/// unit without double quotes, and at least one receiver where there are
/// receivers.
pub open spec fn signal_is_writable(g: SpecSignal) -> bool {
    &&& is_dbc_name(g.name)
    &&& is_number_text(g.factor)
    &&& is_number_text(g.offset)
    &&& (g.min is Some <==> g.max is Some)
    &&& (g.min matches Some(lo) ==> is_number_text(lo))
    &&& (g.max matches Some(hi) ==> is_number_text(hi))
    &&& (g.unit matches Some(u) ==> forall|j: int| 0 <= j < u.len() ==> #[trigger] u[j] != '"')
    &&& (g.receivers matches Some(rs) ==> rs.len() > 0 && forall|k: int|
        0 <= k < rs.len() ==> is_dbc_name(#[trigger] rs[k]))
}

#[verifier::spinoff_prover]
#[verifier::rlimit(80)]
proof fn lemma_signal_head_parse(s: Seq<char>, p: int, g: SpecSignal)
    requires
        0 <= p,
        is_dbc_name(g.name),
        p + signal_head_text(g).len() < s.len(),
        s.subrange(p, p + signal_head_text(g).len()) == signal_head_text(g),
        s[p + signal_head_text(g).len()] == ':',
    ensures
        has_tag(s, p, signal_keyword()),
        skip_space(s, p + 3) == p + 4,
        parse_name(s, p + 4) == Some(p + 4 + g.name.len() as int),
        ({
            let c = skip_space(s, p + 4 + g.name.len() as int);
            let (mux, d) = match parse_multiplexer(s, c) {
                Some((m, e)) => (Some(m), e),
                None => (None, c),
            };
            &&& mux == g.multiplexer
            &&& p <= d <= p + signal_head_text(g).len()
            &&& skip_space(s, d) == p + signal_head_text(g).len()
        }),
{
    let t = signal_head_text(g);
    let l = t.len() as int;
    let name = g.name;
    let ln = name.len() as int;
    let b = p + 4 + ln;
    lemma_sub(s, p, t, 0, l);
    assert(t.subrange(0, 3) =~= signal_keyword());
    lemma_sub(s, p, t, 0, 3);
    assert(t[3] == ' ');
    assert(t[4] == name[0]);
    lemma_run_end_at(s, p + 3, p + 4, CharClass::Space);
    assert(t.subrange(4, 4 + ln) =~= name);
    lemma_sub(s, p, t, 4, 4 + ln);
    assert(t[4 + ln] == ' ');
    lemma_parse_name_text(s, p + 4, name);
    match g.multiplexer {
        None => {
            assert(l == 5 + ln);
            lemma_run_end_at(s, b, b + 1, CharClass::Space);
            lemma_run_end_at(s, b + 1, b + 1, CharClass::Space);
        },
        Some(m) => {
            let mt = multiplexer_text(m);
            let lm = mt.len() as int;
            assert(t.subrange(5 + ln, 5 + ln + lm) =~= mt);
            lemma_sub(s, p, t, 5 + ln, 5 + ln + lm);
            assert(l == 5 + ln + lm + 1);
            assert(t[5 + ln + lm] == ' ');
            assert(s[b + 1] == mt[0]);
            lemma_run_end_at(s, b, b + 1, CharClass::Space);
            lemma_run_end_at(s, b + 1 + lm, b + 2 + lm, CharClass::Space);
            match m {
                MultiplexIndicator::Multiplexor => {},
                MultiplexIndicator::MultiplexedSignal(n) => {
                    let tn = nat_text(n as nat);
                    crate::text::lemma_nat_text_digits(n as nat);
                    assert(mt.subrange(1, lm) =~= tn);
                    lemma_sub(s, b + 1, mt, 1, lm);
                    assert(s.subrange(b + 2, b + 2 + tn.len()) =~= tn);
                    lemma_parse_u32_text(s, b + 2, n);
                },
                MultiplexIndicator::MultiplexorAndMultiplexedSignal(n) => {
                    let tn = nat_text(n as nat);
                    crate::text::lemma_nat_text_digits(n as nat);
                    assert(mt.subrange(1, lm - 1) =~= tn);
                    lemma_sub(s, b + 1, mt, 1, lm - 1);
                    assert(s.subrange(b + 2, b + 2 + tn.len()) =~= tn);
                    assert(s[b + 2 + tn.len()] == mt[lm - 1]);
                    lemma_parse_u32_text(s, b + 2, n);
                },
            }
        },
    }
}

#[verifier::spinoff_prover]
#[verifier::rlimit(80)]
proof fn lemma_signal_layout_core(s: Seq<char>, q: int, g: SpecSignal)
    requires
        0 <= q,
        is_number_text(g.factor),
        is_number_text(g.offset),
        q + signal_layout_text(g).len() <= s.len(),
        s.subrange(q, q + signal_layout_text(g).len()) == signal_layout_text(g),
    ensures
        char_at(s, q, ':'),
        skip_space(s, q + 1) == q + 2,
        parse_layout(s, q + 2) == Some(
            (
                g.start_bit,
                g.size,
                g.byte_order,
                g.value_type,
                q + signal_layout_text(g).len() - 4 - g.factor.len() - g.offset.len(),
            ),
        ),
{
    let t = signal_layout_text(g);
    let l = t.len() as int;
    let ts = nat_text(g.start_bit as nat);
    let tz = nat_text(g.size as nat);
    let a1 = ts.len() as int;
    let a2 = tz.len() as int;
    let lf = g.factor.len() as int;
    let lo = g.offset.len() as int;
    crate::text::lemma_nat_text_digits(g.start_bit as nat);
    crate::text::lemma_nat_text_digits(g.size as nat);
    lemma_number_text_first(g.factor);
    lemma_number_text_first(g.offset);
    let x = 3 + a1 + a2;
    assert(l == x + 7 + lf + lo);
    lemma_sub(s, q, t, 0, l);
    assert(t[0] == ':' && t[1] == ' ' && t[2] == ts[0]);
    lemma_run_end_at(s, q + 1, q + 2, CharClass::Space);
    // start|size
    assert(t.subrange(2, 2 + a1) =~= ts);
    lemma_sub(s, q, t, 2, 2 + a1);
    assert(t[2 + a1] == '|');
    lemma_parse_u32_text(s, q + 2, g.start_bit);
    lemma_run_end_at(s, q + 2 + a1, q + 2 + a1, CharClass::Space);
    assert(t[3 + a1] == tz[0]);
    lemma_run_end_at(s, q + 3 + a1, q + 3 + a1, CharClass::Space);
    assert(t.subrange(3 + a1, x) =~= tz);
    lemma_sub(s, q, t, 3 + a1, x);
    assert(t[x] == '@');
    lemma_parse_u32_text(s, q + 3 + a1, g.size);
    // @order sign
    lemma_run_end_at(s, q + x, q + x, CharClass::Space);
    assert(t[x + 1] == match g.byte_order {
        ByteOrder::LittleEndian => '1',
        ByteOrder::BigEndian => '0',
    });
    assert(t[x + 2] == match g.value_type {
        ValueType::Unsigned => '+',
        ValueType::Signed => '-',
    });
    lemma_run_end_at(s, q + x + 1, q + x + 1, CharClass::Space);
    lemma_run_end_at(s, q + x + 2, q + x + 2, CharClass::Space);
}

#[verifier::spinoff_prover]
#[verifier::rlimit(80)]
proof fn lemma_signal_layout_pair(s: Seq<char>, q: int, g: SpecSignal)
    requires
        0 <= q,
        is_number_text(g.factor),
        is_number_text(g.offset),
        q + signal_layout_text(g).len() <= s.len(),
        s.subrange(q, q + signal_layout_text(g).len()) == signal_layout_text(g),
    ensures
        parse_number_pair(
            s,
            q + signal_layout_text(g).len() - 4 - g.factor.len() - g.offset.len(),
            '(',
            ',',
            ')',
        ) == Some((g.factor, g.offset, q + signal_layout_text(g).len())),
{
    let t = signal_layout_text(g);
    let l = t.len() as int;
    let ts = nat_text(g.start_bit as nat);
    let tz = nat_text(g.size as nat);
    let a1 = ts.len() as int;
    let a2 = tz.len() as int;
    let lf = g.factor.len() as int;
    let lo = g.offset.len() as int;
    crate::text::lemma_nat_text_digits(g.start_bit as nat);
    crate::text::lemma_nat_text_digits(g.size as nat);
    lemma_number_text_first(g.factor);
    lemma_number_text_first(g.offset);
    let x = 3 + a1 + a2;
    assert(l == x + 7 + lf + lo);
    lemma_sub(s, q, t, 0, l);
    // (factor,offset)
    assert(t[x + 3] == ' ' && t[x + 4] == '(');
    let l1 = q + x + 3;
    lemma_run_end_at(s, l1, l1 + 1, CharClass::Space);
    assert(t[x + 5] == g.factor[0]);
    lemma_run_end_at(s, l1 + 2, l1 + 2, CharClass::Space);
    assert(t.subrange(x + 5, x + 5 + lf) =~= g.factor);
    lemma_sub(s, q, t, x + 5, x + 5 + lf);
    assert(t[x + 5 + lf] == ',');
    lemma_number_text(s, q + x + 5, g.factor);
    lemma_run_end_at(s, q + x + 5 + lf, q + x + 5 + lf, CharClass::Space);
    assert(t[x + 6 + lf] == g.offset[0]);
    lemma_run_end_at(s, q + x + 6 + lf, q + x + 6 + lf, CharClass::Space);
    assert(t.subrange(x + 6 + lf, x + 6 + lf + lo) =~= g.offset);
    lemma_sub(s, q, t, x + 6 + lf, x + 6 + lf + lo);
    assert(t[x + 6 + lf + lo] == ')');
    lemma_number_text(s, q + x + 6 + lf, g.offset);
    lemma_run_end_at(s, q + x + 6 + lf + lo, q + x + 6 + lf + lo, CharClass::Space);
}

proof fn lemma_signal_layout_parse(s: Seq<char>, q: int, g: SpecSignal)
    requires
        0 <= q,
        is_number_text(g.factor),
        is_number_text(g.offset),
        q + signal_layout_text(g).len() <= s.len(),
        s.subrange(q, q + signal_layout_text(g).len()) == signal_layout_text(g),
    ensures
        char_at(s, q, ':'),
        skip_space(s, q + 1) == q + 2,
        parse_layout(s, q + 2) == Some(
            (
                g.start_bit,
                g.size,
                g.byte_order,
                g.value_type,
                q + signal_layout_text(g).len() - 4 - g.factor.len() - g.offset.len(),
            ),
        ),
        parse_number_pair(
            s,
            q + signal_layout_text(g).len() - 4 - g.factor.len() - g.offset.len(),
            '(',
            ',',
            ')',
        ) == Some((g.factor, g.offset, q + signal_layout_text(g).len())),
{
    lemma_signal_layout_core(s, q, g);
    lemma_signal_layout_pair(s, q, g);
}

proof fn lemma_more_receivers_parse(s: Seq<char>, q: int, rs: Seq<Seq<char>>)
    requires
        0 <= q,
        q + join_prefixed(rs, seq![',']).len() <= s.len(),
        s.subrange(q, q + join_prefixed(rs, seq![',']).len()) == join_prefixed(rs, seq![',']),
        forall|k: int| 0 <= k < rs.len() ==> is_dbc_name(#[trigger] rs[k]),
        q + join_prefixed(rs, seq![',']).len() < s.len() ==> s[q + join_prefixed(
            rs,
            seq![','],
        ).len()] == '\n',
    ensures
        parse_more_receivers(s, q) == (rs, q + join_prefixed(rs, seq![',']).len()),
    decreases rs.len(),
{
    let t = join_prefixed(rs, seq![',']);
    let l = t.len() as int;
    if rs.len() == 0 {
        lemma_run_end_at(s, q, q, CharClass::Space);
    } else {
        lemma_join_prefixed_first(rs, seq![',']);
        let r0 = rs[0];
        let lr = r0.len() as int;
        let rest = rs.drop_first();
        let tr = join_prefixed(rest, seq![',']);
        let e = q + 1 + lr;
        assert(is_dbc_name(r0));
        lemma_sub(s, q, t, 0, l);
        assert(t[0] == ',');
        assert(t[1] == r0[0]);
        lemma_run_end_at(s, q, q, CharClass::Space);
        lemma_run_end_at(s, q + 1, q + 1, CharClass::Space);
        assert(t.subrange(1, 1 + lr) =~= r0);
        lemma_sub(s, q, t, 1, 1 + lr);
        assert(t.subrange(1 + lr, l) =~= tr);
        lemma_sub(s, q, t, 1 + lr, l);
        if rest.len() > 0 {
            lemma_join_prefixed_first(rest, seq![',']);
            assert(s[e] == tr[0]);
        }
        lemma_parse_name_text(s, q + 1, r0);
        assert forall|k: int| 0 <= k < rest.len() implies is_dbc_name(#[trigger] rest[k]) by {
            assert(rest[k] == rs[k + 1]);
        }
        lemma_more_receivers_parse(s, e, rest);
        assert(seq![r0] + rest =~= rs);
    }
}

proof fn lemma_receivers_parse(s: Seq<char>, q: int, rs: Seq<Seq<char>>)
    requires
        0 <= q,
        rs.len() > 0,
        q + rs[0].len() + join_prefixed(rs.drop_first(), seq![',']).len() <= s.len(),
        s.subrange(q, q + rs[0].len() + join_prefixed(rs.drop_first(), seq![',']).len()) == rs[0]
            + join_prefixed(rs.drop_first(), seq![',']),
        forall|k: int| 0 <= k < rs.len() ==> is_dbc_name(#[trigger] rs[k]),
        q + rs[0].len() + join_prefixed(rs.drop_first(), seq![',']).len() < s.len() ==> s[q
            + rs[0].len() + join_prefixed(rs.drop_first(), seq![',']).len()] == '\n',
    ensures
        parse_receivers(s, q) == (
            rs,
            q + rs[0].len() + join_prefixed(rs.drop_first(), seq![',']).len(),
        ),
{
    let r0 = rs[0];
    let lr = r0.len() as int;
    let rest = rs.drop_first();
    let tr = join_prefixed(rest, seq![',']);
    let t = r0 + tr;
    let l = t.len() as int;
    assert(is_dbc_name(r0));
    lemma_sub(s, q, t, 0, l);
    assert(t.subrange(0, lr) =~= r0);
    lemma_sub(s, q, t, 0, lr);
    assert(t.subrange(lr, l) =~= tr);
    lemma_sub(s, q, t, lr, l);
    if rest.len() > 0 {
        lemma_join_prefixed_first(rest, seq![',']);
        assert(s[q + lr] == tr[0]);
    }
    lemma_parse_name_text(s, q, r0);
    assert forall|k: int| 0 <= k < rest.len() implies is_dbc_name(#[trigger] rest[k]) by {
        assert(rest[k] == rs[k + 1]);
    }
    lemma_more_receivers_parse(s, q + lr, rest);
    assert(seq![r0] + rest =~= rs);
}

proof fn lemma_tail_receivers(s: Seq<char>, p2: int, rec: Option<Seq<Seq<char>>>)
    requires
        0 <= p2,
        p2 + receivers_text(rec).len() <= s.len(),
        s.subrange(p2, p2 + receivers_text(rec).len()) == receivers_text(rec),
        rec matches Some(rs) ==> rs.len() > 0 && forall|k: int|
            0 <= k < rs.len() ==> is_dbc_name(#[trigger] rs[k]),
        p2 + receivers_text(rec).len() < s.len() ==> s[p2 + receivers_text(rec).len()] == '\n',
    ensures
        ({
            let (rs, w) = parse_receivers(s, skip_space(s, p2));
            &&& (if rs.len() == 0 {
                None
            } else {
                Some(rs)
            }) == rec
            &&& w == p2 + receivers_text(rec).len()
        }),
        !char_at(s, skip_space(s, p2), '"'),
        !char_at(s, skip_space(s, p2), '['),
{
    let t = receivers_text(rec);
    let l = t.len() as int;
    lemma_sub(s, p2, t, 0, l);
    match rec {
        None => {
            lemma_run_end_at(s, p2, p2, CharClass::Space);
            assert(parse_name(s, p2) is None);
        },
        Some(rs) => {
            assert(is_dbc_name(rs[0]));
            assert(t[0] == ' ');
            assert(t[1] == rs[0][0]);
            lemma_run_end_at(s, p2, p2 + 1, CharClass::Space);
            assert(t.subrange(1, l) =~= rs[0] + join_prefixed(rs.drop_first(), seq![',']));
            lemma_sub(s, p2, t, 1, l);
            lemma_receivers_parse(s, p2 + 1, rs);
        },
    }
}

#[verifier::spinoff_prover]
#[verifier::rlimit(80)]
proof fn lemma_tail_unit(s: Seq<char>, p1: int, g: SpecSignal)
    requires
        0 <= p1,
        signal_is_writable(g),
        p1 + unit_text(g.unit).len() + receivers_text(g.receivers).len() <= s.len(),
        s.subrange(p1, p1 + unit_text(g.unit).len() + receivers_text(g.receivers).len())
            == unit_text(g.unit) + receivers_text(g.receivers),
        p1 + unit_text(g.unit).len() + receivers_text(g.receivers).len() < s.len() ==> s[p1
            + unit_text(g.unit).len() + receivers_text(g.receivers).len()] == '\n',
    ensures
        ({
            let u0 = skip_space(s, p1);
            let (unit, v0) = match parse_quoted(s, u0) {
                Some(u1) => (Some(s.subrange(u0 + 1, u1 - 1)), skip_space(s, u1)),
                None => (None, u0),
            };
            &&& unit == g.unit
            &&& v0 == skip_space(s, p1 + unit_text(g.unit).len())
        }),
        !char_at(s, skip_space(s, p1), '['),
{
    let ut = unit_text(g.unit);
    let ct = receivers_text(g.receivers);
    let lu = ut.len() as int;
    let lc = ct.len() as int;
    let t = ut + ct;
    lemma_sub(s, p1, t, 0, lu + lc);
    assert(t.subrange(lu, lu + lc) =~= ct);
    lemma_sub(s, p1, t, lu, lu + lc);
    lemma_tail_receivers(s, p1 + lu, g.receivers);
    match g.unit {
        None => {},
        Some(u) => {
            assert(t[0] == ' ' && t[1] == '"');
            lemma_run_end_at(s, p1, p1 + 1, CharClass::Space);
            assert(t.subrange(1, lu) =~= seq!['"'] + u + seq!['"']);
            lemma_sub(s, p1, t, 1, lu);
            lemma_parse_quoted_text(s, p1 + 1, u);
            assert(t.subrange(2, lu - 1) =~= u);
            lemma_sub(s, p1, t, 2, lu - 1);
        },
    }
}

#[verifier::spinoff_prover]
#[verifier::rlimit(80)]
proof fn lemma_tail_range(s: Seq<char>, m1: int, g: SpecSignal)
    requires
        0 <= m1,
        signal_is_writable(g),
        m1 + range_text(g.min, g.max).len() <= s.len(),
        s.subrange(m1, m1 + range_text(g.min, g.max).len()) == range_text(g.min, g.max),
        !char_at(s, skip_space(s, m1 + range_text(g.min, g.max).len()), '['),
    ensures
        ({
            let r0 = skip_space(s, m1);
            let (min, max, u0) = match parse_number_pair(s, r0, '[', '|', ']') {
                Some((lo, hi, r1)) => (Some(lo), Some(hi), skip_space(s, r1)),
                None => (None, None, r0),
            };
            &&& min == g.min
            &&& max == g.max
            &&& u0 == skip_space(s, m1 + range_text(g.min, g.max).len())
        }),
{
    let t = range_text(g.min, g.max);
    let lr = t.len() as int;
    lemma_sub(s, m1, t, 0, lr);
    match (g.min, g.max) {
        (Some(lo), Some(hi)) => {
            let llo = lo.len() as int;
            let lhi = hi.len() as int;
            lemma_number_text_first(lo);
            lemma_number_text_first(hi);
            assert(lr == 4 + llo + lhi);
            assert(t[0] == ' ' && t[1] == '[');
            lemma_run_end_at(s, m1, m1 + 1, CharClass::Space);
            lemma_run_end_at(s, m1 + 1, m1 + 1, CharClass::Space);
            assert(t[2] == lo[0]);
            lemma_run_end_at(s, m1 + 2, m1 + 2, CharClass::Space);
            assert(t.subrange(2, 2 + llo) =~= lo);
            lemma_sub(s, m1, t, 2, 2 + llo);
            assert(t[2 + llo] == '|');
            lemma_number_text(s, m1 + 2, lo);
            lemma_run_end_at(s, m1 + 2 + llo, m1 + 2 + llo, CharClass::Space);
            assert(t[3 + llo] == hi[0]);
            lemma_run_end_at(s, m1 + 3 + llo, m1 + 3 + llo, CharClass::Space);
            assert(t.subrange(3 + llo, 3 + llo + lhi) =~= hi);
            lemma_sub(s, m1, t, 3 + llo, 3 + llo + lhi);
            assert(t[3 + llo + lhi] == ']');
            lemma_number_text(s, m1 + 3 + llo, hi);
            lemma_run_end_at(s, m1 + 3 + llo + lhi, m1 + 3 + llo + lhi, CharClass::Space);
        },
        _ => {
            assert(lr == 0);
            let r0 = skip_space(s, m1);
            crate::ast::common_parsers::lemma_run_end(s, m1, CharClass::Space);
            lemma_run_end_at(s, r0, r0, CharClass::Space);
            assert(parse_number_pair(s, r0, '[', '|', ']') is None);
        },
    }
}

#[verifier::spinoff_prover]
#[verifier::rlimit(80)]
proof fn lemma_signal_tail_parse(s: Seq<char>, m1: int, g: SpecSignal)
    requires
        0 <= m1,
        signal_is_writable(g),
        m1 + signal_tail_text(g).len() <= s.len(),
        s.subrange(m1, m1 + signal_tail_text(g).len()) == signal_tail_text(g),
        m1 + signal_tail_text(g).len() < s.len() ==> s[m1 + signal_tail_text(g).len()] == '\n',
    ensures
        ({
            let r0 = skip_space(s, m1);
            let (min, max, u0) = match parse_number_pair(s, r0, '[', '|', ']') {
                Some((lo, hi, r1)) => (Some(lo), Some(hi), skip_space(s, r1)),
                None => (None, None, r0),
            };
            let (unit, v0) = match parse_quoted(s, u0) {
                Some(u1) => (Some(s.subrange(u0 + 1, u1 - 1)), skip_space(s, u1)),
                None => (None, u0),
            };
            let (rs, w) = parse_receivers(s, v0);
            &&& min == g.min
            &&& max == g.max
            &&& unit == g.unit
            &&& (if rs.len() == 0 {
                None
            } else {
                Some(rs)
            }) == g.receivers
            &&& w == m1 + signal_tail_text(g).len()
        }),
{
    let rt = range_text(g.min, g.max);
    let ut = unit_text(g.unit);
    let ct = receivers_text(g.receivers);
    let lr = rt.len() as int;
    let lu = ut.len() as int;
    let lc = ct.len() as int;
    let t = signal_tail_text(g);
    assert(t =~= rt + (ut + ct));
    lemma_sub(s, m1, t, 0, lr + lu + lc);
    assert(t.subrange(0, lr) =~= rt);
    lemma_sub(s, m1, t, 0, lr);
    assert(t.subrange(lr, lr + lu + lc) =~= ut + ct);
    lemma_sub(s, m1, t, lr, lr + lu + lc);
    lemma_tail_unit(s, m1 + lr, g);
    assert(t.subrange(lr + lu, lr + lu + lc) =~= ct);
    lemma_sub(s, m1, t, lr + lu, lr + lu + lc);
    lemma_tail_receivers(s, m1 + lr + lu, g.receivers);
    lemma_tail_range(s, m1, g);
}

/// A written signal, followed by a line break or the end of the input,
/// reads back as the same signal, whenever the signal is writable.
#[verifier::spinoff_prover]
#[verifier::rlimit(80)]
pub proof fn lemma_signal_text_parse(s: Seq<char>, p: int, g: SpecSignal)
    requires
        0 <= p,
        signal_is_writable(g),
        p + signal_text(g).len() <= s.len(),
        s.subrange(p, p + signal_text(g).len()) == signal_text(g),
        p + signal_text(g).len() < s.len() ==> s[p + signal_text(g).len()] == '\n',
    ensures
        parse_signal_at(s, p) == Some((g, p + signal_text(g).len())),
{
    reveal(signal_text);
    let ht = signal_head_text(g);
    let yt = signal_layout_text(g);
    let tt = signal_tail_text(g);
    let h = ht.len() as int;
    let y = yt.len() as int;
    let z = tt.len() as int;
    let t = signal_text(g);
    assert(t =~= ht + yt + tt);
    lemma_sub(s, p, t, 0, h + y + z);
    assert(t.subrange(0, h) =~= ht);
    lemma_sub(s, p, t, 0, h);
    assert(t.subrange(h, h + y) =~= yt);
    lemma_sub(s, p, t, h, h + y);
    assert(t.subrange(h + y, h + y + z) =~= tt);
    lemma_sub(s, p, t, h + y, h + y + z);
    assert(yt[0] == ':');
    assert(s[p + h] == ':');
    lemma_signal_head_parse(s, p, g);
    lemma_signal_layout_parse(s, p + h, g);
    lemma_signal_tail_parse(s, p + h + y, g);
    assert(ht.subrange(4, 4 + g.name.len() as int) =~= g.name);
    lemma_sub(s, p, ht, 4, 4 + g.name.len() as int);
}

/// A written signal starts with `S`.
pub proof fn lemma_signal_text_first(g: SpecSignal)
    ensures
        signal_text(g).len() > 0,
        signal_text(g)[0] == 'S',
{
    reveal(signal_text);
    assert(signal_head_text(g)[0] == 'S');
}

fn parse_multiplexer_at(v: &Vec<char>, i: usize) -> (r: Option<(MultiplexIndicator, usize)>)
    requires
        i <= v@.len(),
    ensures
        match r {
            Some((m, e)) => parse_multiplexer(v@, i as int) == Some((m, e as int)) && i < e
                <= v@.len(),
            None => parse_multiplexer(v@, i as int) is None,
        },
{
    if char_is(v, i, 'M') {
        Some((MultiplexIndicator::Multiplexor, i + 1))
    } else if char_is(v, i, 'm') {
        match scan_u32(v, i + 1) {
            Some((n, e)) => if char_is(v, e, 'M') {
                Some((MultiplexIndicator::MultiplexorAndMultiplexedSignal(n), e + 1))
            } else {
                Some((MultiplexIndicator::MultiplexedSignal(n), e))
            },
            None => None,
        }
    } else {
        None
    }
}

fn after_char_at(v: &Vec<char>, i: usize, c: char) -> (r: Option<usize>)
    requires
        i <= v@.len(),
    ensures
        match r {
            Some(e) => after_char(v@, i as int, c) == Some(e as int) && i < e <= v@.len(),
            None => after_char(v@, i as int, c) is None,
        },
{
    let a = scan_space(v, i);
    if char_is(v, a, c) {
        Some(scan_space(v, a + 1))
    } else {
        None
    }
}

fn parse_layout_at(v: &Vec<char>, i: usize) -> (r: Option<(u32, u32, ByteOrder, ValueType, usize)>)
    requires
        i <= v@.len(),
    ensures
        match r {
            Some((start, size, o, t, e)) => parse_layout(v@, i as int) == Some(
                (start, size, o, t, e as int),
            ) && i < e <= v@.len(),
            None => parse_layout(v@, i as int) is None,
        },
{
    let (start, a) = match scan_u32(v, i) {
        Some(x) => x,
        None => return None,
    };
    let b = match after_char_at(v, a, '|') {
        Some(b) => b,
        None => return None,
    };
    let (size, c) = match scan_u32(v, b) {
        Some(x) => x,
        None => return None,
    };
    let d = match after_char_at(v, c, '@') {
        Some(d) => d,
        None => return None,
    };
    let order = if char_is(v, d, '1') {
        ByteOrder::LittleEndian
    } else if char_is(v, d, '0') {
        ByteOrder::BigEndian
    } else {
        return None;
    };
    let e = scan_space(v, d + 1);
    let vt = if char_is(v, e, '+') {
        ValueType::Unsigned
    } else if char_is(v, e, '-') {
        ValueType::Signed
    } else {
        return None;
    };
    Some((start, size, order, vt, e + 1))
}

fn parse_number_pair_at(v: &Vec<char>, i: usize, open: char, sep: char, close: char) -> (r: Option<
    (String, String, usize),
>)
    requires
        i <= v@.len(),
    ensures
        match r {
            Some((x, y, e)) => parse_number_pair(v@, i as int, open, sep, close) == Some(
                (x@, y@, e as int),
            ) && i < e <= v@.len(),
            None => parse_number_pair(v@, i as int, open, sep, close) is None,
        },
{
    let a = match after_char_at(v, i, open) {
        Some(a) => a,
        None => return None,
    };
    let b = match scan_number(v, a) {
        Some(b) => b,
        None => return None,
    };
    let c = match after_char_at(v, b, sep) {
        Some(c) => c,
        None => return None,
    };
    let d = match scan_number(v, c) {
        Some(d) => d,
        None => return None,
    };
    let e = scan_space(v, d);
    if char_is(v, e, close) {
        Some((string_from_range(v, a, b), string_from_range(v, c, d), e + 1))
    } else {
        None
    }
}

fn parse_receivers_at(v: &Vec<char>, i: usize) -> (r: (Vec<String>, usize))
    requires
        i <= v@.len(),
    ensures
        parse_receivers(v@, i as int) == (strings_view(r.0@), r.1 as int),
        i <= r.1 <= v@.len(),
{
    let first_end = match scan_name(v, i) {
        Some(e) => e,
        None => {
            let empty: Vec<String> = Vec::new();
            assert(strings_view(empty@) =~= Seq::<Seq<char>>::empty());
            return (empty, i);
        },
    };
    let mut names: Vec<String> = Vec::new();
    names.push(string_from_range(v, i, first_end));
    let mut j = first_end;
    let ghost first = v@.subrange(i as int, first_end as int);
    assert(strings_view(names@) =~= seq![first]);
    loop
        invariant
            i < first_end <= j <= v@.len(),
            first == v@.subrange(i as int, first_end as int),
            parse_receivers(v@, i as int) == (
                seq![first] + parse_more_receivers(v@, first_end as int).0,
                parse_more_receivers(v@, first_end as int).1,
            ),
            seq![first] + parse_more_receivers(v@, first_end as int).0 == strings_view(names@)
                + parse_more_receivers(v@, j as int).0,
            parse_more_receivers(v@, first_end as int).1 == parse_more_receivers(v@, j as int).1,
        decreases v@.len() - j,
    {
        let b = match after_char_at(v, j, ',') {
            Some(b) => b,
            None => {
                assert(strings_view(names@) + Seq::empty() =~= strings_view(names@));
                return (names, j);
            },
        };
        match scan_name(v, b) {
            Some(e) => {
                let ghost before = strings_view(names@);
                let name = string_from_range(v, b, e);
                let ghost here = name@;
                names.push(name);
                assert(strings_view(names@) =~= before.push(here));
                assert(before + parse_more_receivers(v@, j as int).0 =~= before.push(here)
                    + parse_more_receivers(v@, e as int).0);
                j = e;
            },
            None => {
                assert(strings_view(names@) + Seq::empty() =~= strings_view(names@));
                return (names, j);
            },
        }
    }
}

/// Parses the signal that starts at `i`; returns it and the position after
/// it.
pub fn parse_signal_at_pos(v: &Vec<char>, i: usize) -> (r: Option<(Signal, usize)>)
    requires
        i <= v@.len(),
    ensures
        match r {
            Some((g, j)) => parse_signal_at(v@, i as int) == Some((g@, j as int)) && i < j
                <= v@.len(),
            None => parse_signal_at(v@, i as int) is None,
        },
{
    let keyword: [char; 3] = ['S', 'G', '_'];
    assert(keyword@ =~= signal_keyword());
    if !tag_at(v, i, &keyword) {
        return None;
    }
    let a = scan_space(v, i + 3);
    let b = match scan_name(v, a) {
        Some(b) => b,
        None => return None,
    };
    let c = scan_space(v, b);
    let (multiplexer, d) = match parse_multiplexer_at(v, c) {
        Some((m, e)) => (Some(m), e),
        None => (None, c),
    };
    let l0 = match after_char_at(v, d, ':') {
        Some(l0) => l0,
        None => return None,
    };
    let (start_bit, size, byte_order, value_type, l1) = match parse_layout_at(v, l0) {
        Some(x) => x,
        None => return None,
    };
    let (factor, offset, m1) = match parse_number_pair_at(v, l1, '(', ',', ')') {
        Some(x) => x,
        None => return None,
    };
    let r0 = scan_space(v, m1);
    let (min, max, u0) = match parse_number_pair_at(v, r0, '[', '|', ']') {
        Some((lo, hi, r1)) => (Some(lo), Some(hi), scan_space(v, r1)),
        None => (None, None, r0),
    };
    let (unit, v0) = match scan_quoted(v, u0) {
        Some(u1) => (Some(string_from_range(v, u0 + 1, u1 - 1)), scan_space(v, u1)),
        None => (None, u0),
    };
    let (rs, w) = parse_receivers_at(v, v0);
    let receivers = if rs.len() == 0 {
        None
    } else {
        Some(rs)
    };
    let name = string_from_range(v, a, b);
    let g = Signal {
        name,
        multiplexer,
        start_bit,
        size,
        byte_order,
        value_type,
        factor,
        offset,
        min,
        max,
        unit,
        receivers,
    };
    Some((g, w))
}

fn push_string(out: &mut String, s: &String)
    ensures
        final(out)@ == old(out)@ + s@,
{
    push_str(out, s.as_str());
}

impl MultiplexIndicator {
    /// Appends the indicator.
    pub fn write_to(&self, out: &mut String)
        ensures
            final(out)@ == old(out)@ + multiplexer_text(*self),
    {
        match *self {
            MultiplexIndicator::Multiplexor => push_char(out, 'M'),
            MultiplexIndicator::MultiplexedSignal(n) => {
                push_char(out, 'm');
                push_u64(out, n as u64);
            },
            MultiplexIndicator::MultiplexorAndMultiplexedSignal(n) => {
                push_char(out, 'm');
                push_u64(out, n as u64);
                push_char(out, 'M');
            },
        }
        assert(out@ =~= old(out)@ + multiplexer_text(*self));
    }
}

impl Signal {
    fn write_head(&self, out: &mut String)
        ensures
            final(out)@ == old(out)@ + signal_head_text(self@),
    {
        let head: [char; 4] = ['S', 'G', '_', ' '];
        push_slice(out, &head);
        push_string(out, &self.name);
        push_char(out, ' ');
        match &self.multiplexer {
            Some(m) => {
                m.write_to(out);
                push_char(out, ' ');
            },
            None => {},
        }
        assert(head@ =~= signal_keyword() + seq![' ']);
        assert(out@ =~= old(out)@ + signal_head_text(self@));
    }

    fn write_layout(&self, out: &mut String)
        ensures
            final(out)@ == old(out)@ + signal_layout_text(self@),
    {
        push_char(out, ':');
        push_char(out, ' ');
        push_u64(out, self.start_bit as u64);
        push_char(out, '|');
        push_u64(out, self.size as u64);
        push_char(out, '@');
        match self.byte_order {
            ByteOrder::LittleEndian => push_char(out, '1'),
            ByteOrder::BigEndian => push_char(out, '0'),
        }
        match self.value_type {
            ValueType::Unsigned => push_char(out, '+'),
            ValueType::Signed => push_char(out, '-'),
        }
        push_char(out, ' ');
        push_char(out, '(');
        push_string(out, &self.factor);
        push_char(out, ',');
        push_string(out, &self.offset);
        push_char(out, ')');
        assert(out@ =~= old(out)@ + signal_layout_text(self@));
    }

    fn write_range(&self, out: &mut String)
        ensures
            final(out)@ == old(out)@ + range_text(opt_string_view(self.min), opt_string_view(
                self.max,
            )),
    {
        match (&self.min, &self.max) {
            (Some(lo), Some(hi)) => {
                push_char(out, ' ');
                push_char(out, '[');
                push_string(out, lo);
                push_char(out, '|');
                push_string(out, hi);
                push_char(out, ']');
            },
            _ => {},
        }
        assert(out@ =~= old(out)@ + range_text(opt_string_view(self.min), opt_string_view(self.max)));
    }

    fn write_unit(&self, out: &mut String)
        ensures
            final(out)@ == old(out)@ + unit_text(opt_string_view(self.unit)),
    {
        match &self.unit {
            Some(u) => {
                push_char(out, ' ');
                push_char(out, '"');
                push_string(out, u);
                push_char(out, '"');
            },
            None => {},
        }
        assert(out@ =~= old(out)@ + unit_text(opt_string_view(self.unit)));
    }

    fn write_receivers(&self, out: &mut String)
        ensures
            final(out)@ == old(out)@ + receivers_text(self@.receivers),
    {
        match &self.receivers {
            Some(rs) => {
                push_char(out, ' ');
                if rs.len() > 0 {
                    push_string(out, &rs[0]);
                    push_prefixed(out, rs, 1, ",");
                    proof {
                        reveal_strlit(",");
                        assert(","@ =~= seq![',']);
                        assert(strings_view(rs@).skip(1) =~= strings_view(rs@).drop_first());
                    }
                }
            },
            None => {},
        }
        assert(out@ =~= old(out)@ + receivers_text(self@.receivers));
    }

    /// Appends the written form of the signal.
    pub fn write_to(&self, out: &mut String)
        ensures
            final(out)@ == old(out)@ + signal_text(self@),
    {
        self.write_head(out);
        self.write_layout(out);
        self.write_range(out);
        self.write_unit(out);
        self.write_receivers(out);
        reveal(signal_text);
        assert(out@ =~= old(out)@ + signal_text(self@));
    }

    /// The written form of the signal, e.g.
    /// `SG_ Yaw_Rate : 0|16@1+ (0.005,-163.84) [-163.84|163.83] "°/s" ABS`.
    pub fn to_string(&self) -> (s: String)
        ensures
            s@ == signal_text(self@),
    {
        let mut s = String::new();
        self.write_to(&mut s);
        s
    }
}

} // verus!
