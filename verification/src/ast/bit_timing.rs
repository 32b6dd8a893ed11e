//! The bit timing section: `BS_:`, optionally followed by the baud rate and
//! the two bit timing registers, `BS_: 500:12,34`.

use vstd::prelude::*;
use crate::text::{nat_text, push_char, push_slice, push_u64};
use super::common_parsers::{
    char_at, char_is, has_tag, lemma_parse_u32_text, lemma_run_end_at, lemma_sub, parse_u32,
    scan_space, scan_u32, skip_space, tag_at, CharClass,
};

verus! {

#[derive(Clone, Copy, Debug, PartialEq)]
pub struct BitTimingValue {
    pub baudrate: u32,
    pub btr1: u32,
    pub btr2: u32,
}

#[derive(Clone, Copy, Debug, PartialEq)]
pub struct BitTiming {
    pub value: Option<BitTimingValue>,
}

pub open spec fn bit_timing_keyword() -> Seq<char> {
    seq!['B', 'S', '_']
}

/// The value after `BS_:` from `i` on: spaces, the baud rate, `:`, the first
/// register, `,`, the second register, with spaces between them.
pub open spec fn parse_bit_timing_value(s: Seq<char>, i: int) -> Option<(BitTimingValue, int)> {
    match parse_u32(s, skip_space(s, i)) {
        None => None,
        Some((baudrate, c)) => {
            let d = skip_space(s, c);
            if !char_at(s, d, ':') {
                None
            } else {
                match parse_u32(s, skip_space(s, d + 1)) {
                    None => None,
                    Some((btr1, f)) => {
                        let g = skip_space(s, f);
                        if !char_at(s, g, ',') {
                            None
                        } else {
                            match parse_u32(s, skip_space(s, g + 1)) {
                                None => None,
                                Some((btr2, k)) => Some((BitTimingValue { baudrate, btr1, btr2 }, k)),
                            }
                        }
                    },
                }
            }
        },
    }
}

/// The section that starts at `i`: `BS_`, spaces, `:` and, where one
/// follows, the value.
pub open spec fn parse_bit_timing_at(s: Seq<char>, i: int) -> Option<(BitTiming, int)> {
    let a = skip_space(s, i + 3);
    if has_tag(s, i, bit_timing_keyword()) && char_at(s, a, ':') {
        match parse_bit_timing_value(s, a + 1) {
            Some((v, k)) => Some((BitTiming { value: Some(v) }, k)),
            None => Some((BitTiming { value: None }, a + 1)),
        }
    } else {
        None
    }
}

/// How the section is written: `BS_:`, then ` baudrate:btr1,btr2` where
/// there is a value.
pub open spec fn bit_timing_text(b: BitTiming) -> Seq<char> {
    bit_timing_keyword() + seq![':'] + match b.value {
        Some(v) => seq![' '] + nat_text(v.baudrate as nat) + seq![':'] + nat_text(v.btr1 as nat)
            + seq![','] + nat_text(v.btr2 as nat),
        None => Seq::empty(),
    }
}

/// The written bit timing section, followed by a line break, reads back as
/// the same bit timing.
pub proof fn lemma_bit_timing_text_parse(s: Seq<char>, p: int, b: BitTiming)
    requires
        0 <= p,
        p + bit_timing_text(b).len() < s.len(),
        s.subrange(p, p + bit_timing_text(b).len()) == bit_timing_text(b),
        s[p + bit_timing_text(b).len()] == '\n',
    ensures
        parse_bit_timing_at(s, p) == Some((b, p + bit_timing_text(b).len())),
{
    let t = bit_timing_text(b);
    let l = t.len() as int;
    lemma_sub(s, p, t, 0, l);
    assert(t.subrange(0, 3) =~= bit_timing_keyword());
    lemma_sub(s, p, t, 0, 3);
    assert(t[3] == ':');
    lemma_run_end_at(s, p + 3, p + 3, CharClass::Space);
    match b.value {
        None => {
            assert(l == 4);
            lemma_run_end_at(s, p + 4, p + 4, CharClass::Space);
            lemma_run_end_at(s, p + 4, p + 4, CharClass::Digit);
            assert(parse_bit_timing_value(s, p + 4) is None);
        },
        Some(v) => {
            let tb = nat_text(v.baudrate as nat);
            let t1 = nat_text(v.btr1 as nat);
            let t2 = nat_text(v.btr2 as nat);
            let lb = tb.len() as int;
            let l1 = t1.len() as int;
            let l2 = t2.len() as int;
            crate::text::lemma_nat_text_digits(v.baudrate as nat);
            crate::text::lemma_nat_text_digits(v.btr1 as nat);
            crate::text::lemma_nat_text_digits(v.btr2 as nat);
            assert(l == 5 + lb + 1 + l1 + 1 + l2);
            assert(t[4] == ' ');
            assert(t[5] == tb[0]);
            lemma_run_end_at(s, p + 4, p + 5, CharClass::Space);
            assert(t.subrange(5, 5 + lb) =~= tb);
            lemma_sub(s, p, t, 5, 5 + lb);
            let c = p + 5 + lb;
            assert(t[5 + lb] == ':');
            lemma_parse_u32_text(s, p + 5, v.baudrate);
            lemma_run_end_at(s, c, c, CharClass::Space);
            assert(t[6 + lb] == t1[0]);
            lemma_run_end_at(s, c + 1, c + 1, CharClass::Space);
            assert(t.subrange(6 + lb, 6 + lb + l1) =~= t1);
            lemma_sub(s, p, t, 6 + lb, 6 + lb + l1);
            let f = c + 1 + l1;
            assert(t[6 + lb + l1] == ',');
            lemma_parse_u32_text(s, c + 1, v.btr1);
            lemma_run_end_at(s, f, f, CharClass::Space);
            assert(t[7 + lb + l1] == t2[0]);
            lemma_run_end_at(s, f + 1, f + 1, CharClass::Space);
            assert(t.subrange(7 + lb + l1, l) =~= t2);
            lemma_sub(s, p, t, 7 + lb + l1, l);
            lemma_parse_u32_text(s, f + 1, v.btr2);
        },
    }
}

fn parse_bit_timing_value_at(v: &Vec<char>, i: usize) -> (r: Option<(BitTimingValue, usize)>)
    requires
        i <= v@.len(),
    ensures
        match r {
            Some((x, j)) => parse_bit_timing_value(v@, i as int) == Some((x, j as int)) && i < j
                <= v@.len(),
            None => parse_bit_timing_value(v@, i as int) is None,
        },
{
    let (baudrate, c) = match scan_u32(v, scan_space(v, i)) {
        Some(x) => x,
        None => return None,
    };
    let d = scan_space(v, c);
    if !char_is(v, d, ':') {
        return None;
    }
    let (btr1, f) = match scan_u32(v, scan_space(v, d + 1)) {
        Some(x) => x,
        None => return None,
    };
    let g = scan_space(v, f);
    if !char_is(v, g, ',') {
        return None;
    }
    match scan_u32(v, scan_space(v, g + 1)) {
        Some((btr2, k)) => Some((BitTimingValue { baudrate, btr1, btr2 }, k)),
        None => None,
    }
}

pub fn parse_bit_timing_at_pos(v: &Vec<char>, i: usize) -> (r: Option<(BitTiming, usize)>)
    requires
        i <= v@.len(),
    ensures
        match r {
            Some((x, j)) => parse_bit_timing_at(v@, i as int) == Some((x, j as int)) && i < j
                <= v@.len(),
            None => parse_bit_timing_at(v@, i as int) is None,
        },
{
    let keyword: [char; 3] = ['B', 'S', '_'];
    assert(keyword@ =~= bit_timing_keyword());
    if !tag_at(v, i, &keyword) {
        return None;
    }
    let a = scan_space(v, i + 3);
    if !char_is(v, a, ':') {
        return None;
    }
    match parse_bit_timing_value_at(v, a + 1) {
        Some((x, k)) => Some((BitTiming { value: Some(x) }, k)),
        None => Some((BitTiming { value: None }, a + 1)),
    }
}

impl BitTiming {
    /// Appends the section.
    pub fn write_to(&self, out: &mut String)
        ensures
            final(out)@ == old(out)@ + bit_timing_text(*self),
    {
        let head: [char; 4] = ['B', 'S', '_', ':'];
        push_slice(out, &head);
        assert(head@ =~= bit_timing_keyword() + seq![':']);
        match self.value {
            Some(x) => {
                push_char(out, ' ');
                push_u64(out, x.baudrate as u64);
                push_char(out, ':');
                push_u64(out, x.btr1 as u64);
                push_char(out, ',');
                push_u64(out, x.btr2 as u64);
            },
            None => {},
        }
        assert(out@ =~= old(out)@ + bit_timing_text(*self));
    }

    /// The section, e.g. `BS_:` or `BS_: 500:12,34`.
    pub fn to_string(&self) -> (s: String)
        ensures
            s@ == bit_timing_text(*self),
    {
        let mut s = String::new();
        self.write_to(&mut s);
        s
    }
}

} // verus!
