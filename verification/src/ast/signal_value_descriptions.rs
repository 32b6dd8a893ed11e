//! Value descriptions of a signal:
//! `VAL_ message_id signal_name [value_descriptions];`, e.g.
//! `VAL_ 2147487969 Value1 3 "Three" 2 "Two" 1 "One" 0 "Zero" ;`.

use vstd::prelude::*;
use crate::text::{chars_from, chars_of, nat_text, push_char, push_range, push_u64, string_from_range};
use super::common_parsers::{
    is_multispace, lemma_leading_space_dropped, lemma_run_end_through, without_leading_space,
    has_tag, is_dbc_name, lemma_parse_name_text, lemma_parse_u32_text, lemma_run_end_at,
    parse_name, parse_u32, scan_multispace, scan_name, scan_space, scan_u32, skip_multispace,
    skip_space, tag_at, CharClass,
};
use super::error::DbcParseError;
use super::value_descriptions::{
    items_are_quotable, items_text, lemma_descriptions_end_bounds, lemma_descriptions_line_roundtrip,
    parse_descriptions_to_line_end, parse_descriptions_to_line_end_at, SpecValueDescriptionItem,
    ValueDescriptions,
};

verus! {

#[derive(Clone, Debug, PartialEq)]
pub struct SignalValueDescriptions {
    pub message_id: u32,
    pub signal_name: String,
    pub value_descriptions: ValueDescriptions,
}

/// The value descriptions of a signal as a mathematical value.
pub struct SpecSignalValueDescriptions {
    pub message_id: u32,
    pub signal_name: Seq<char>,
    pub value_descriptions: Seq<SpecValueDescriptionItem>,
}

impl View for SignalValueDescriptions {
    type V = SpecSignalValueDescriptions;

    open spec fn view(&self) -> SpecSignalValueDescriptions {
        SpecSignalValueDescriptions {
            message_id: self.message_id,
            signal_name: self.signal_name@,
            value_descriptions: self.value_descriptions@,
        }
    }
}

pub open spec fn val_keyword() -> Seq<char> {
    seq!['V', 'A', 'L', '_']
}

/// The `VAL_` line of a signal that starts at `i`, and the position after
/// it: white space, `VAL_`, white space, the message id, the signal's name,
/// the value descriptions and `;`, separated by spaces and tabs, then any
/// number of line endings.
pub open spec fn parse_signal_value_descriptions_at(s: Seq<char>, i: int) -> Option<
    (SpecSignalValueDescriptions, int),
> {
    let a = skip_multispace(s, i);
    let b = skip_space(s, skip_multispace(s, a + 4));
    if !has_tag(s, a, val_keyword()) {
        None
    } else {
        match parse_u32(s, b) {
            None => None,
            Some((id, c)) => {
                let d = skip_space(s, c);
                match parse_name(s, d) {
                    None => None,
                    Some(e) => match parse_descriptions_to_line_end(s, e) {
                        None => None,
                        Some((items, f)) => Some(
                            (
                                SpecSignalValueDescriptions {
                                    message_id: id,
                                    signal_name: s.subrange(d, e),
                                    value_descriptions: items,
                                },
                                f,
                            ),
                        ),
                    },
                }
            },
        }
    }
}

/// What parsing the input `s` gives: the rest of the input and the value
/// descriptions.
pub open spec fn spec_parser_signal_value_descriptions(s: Seq<char>) -> Option<
    (Seq<char>, SpecSignalValueDescriptions),
> {
    let u = without_leading_space(s);
    match parse_signal_value_descriptions_at(u, 0) {
        Some((v, j)) => Some((u.subrange(j, u.len() as int), v)),
        None => None,
    }
}

/// White space (spaces, tabs, line breaks) written before the `VAL_` line of
/// a signal does not change what parsing gives.
pub proof fn lemma_signal_value_descriptions_leading_space(w: Seq<char>, s: Seq<char>)
    requires
        forall|j: int| 0 <= j < w.len() ==> is_multispace(#[trigger] w[j]),
    ensures
        spec_parser_signal_value_descriptions(w + s) == spec_parser_signal_value_descriptions(s),
{
    lemma_leading_space_dropped(w, s);
}

/// How the value descriptions of a signal are written:
/// `VAL_ <id> <name> <descriptions>;`.
pub open spec fn signal_value_descriptions_text(v: SpecSignalValueDescriptions) -> Seq<char> {
    val_keyword() + seq![' '] + nat_text(v.message_id as nat) + seq![' '] + v.signal_name + seq![
        ' ',
    ] + items_text(v.value_descriptions) + seq![';']
}

/// Writing the value descriptions of a signal and parsing the text gives
/// them back with nothing left over, whenever the signal's name is a name of
/// the format and no description holds a double quote.
pub proof fn lemma_signal_value_descriptions_roundtrip(v: SpecSignalValueDescriptions)
    requires
        is_dbc_name(v.signal_name),
        items_are_quotable(v.value_descriptions),
    ensures
        spec_parser_signal_value_descriptions(signal_value_descriptions_text(v)) == Some(
            (Seq::<char>::empty(), v),
        ),
{
    let s = signal_value_descriptions_text(v);
    let idt = nat_text(v.message_id as nat);
    let name = v.signal_name;
    let items = v.value_descriptions;
    let l1 = idt.len() as int;
    let ln = name.len() as int;
    let p = 7 + l1 + ln;
    let l = items_text(items).len() as int;
    assert(s.len() == p + l + 1);
    assert(s =~= val_keyword() + seq![' '] + idt + seq![' '] + name + seq![' '] + items_text(items)
        + seq![';']);
    crate::text::lemma_nat_text_digits(v.message_id as nat);
    // `VAL_` and the white space after it
    assert(s[0] == 'V');
    lemma_run_end_at(s, 0, 0, CharClass::Multispace);
    assert(s.subrange(0, 4) =~= val_keyword());
    assert(s[4] == ' ');
    assert(s[5] == idt[0]);
    lemma_run_end_at(s, 4, 5, CharClass::Multispace);
    lemma_run_end_at(s, 5, 5, CharClass::Space);
    // the message id
    assert(s.subrange(5, 5 + l1) =~= idt);
    assert(s[5 + l1] == ' ');
    lemma_parse_u32_text(s, 5, v.message_id);
    // the signal's name
    assert(s[6 + l1] == name[0]);
    lemma_run_end_at(s, 5 + l1, 6 + l1, CharClass::Space);
    assert(s.subrange(6 + l1, 6 + l1 + ln) =~= name);
    assert(s[6 + l1 + ln] == ' ');
    lemma_parse_name_text(s, 6 + l1, name);
    // the value descriptions and the end
    assert(s.subrange(6 + l1 + ln, s.len() as int) =~= seq![' '] + items_text(items) + seq![';']);
    lemma_descriptions_line_roundtrip(s, 6 + l1 + ln, items);
    assert(s.subrange(s.len() as int, s.len() as int) =~= Seq::<char>::empty());
    assert(s.subrange(0, s.len() as int) =~= s);
}

/// Parses the `VAL_` line of a signal that starts at `i`; returns it and the
/// position after it.
pub fn parse_signal_value_descriptions_at_pos(v: &Vec<char>, i: usize) -> (r: Option<
    (SignalValueDescriptions, usize),
>)
    requires
        i <= v@.len(),
    ensures
        match r {
            Some((d, j)) => parse_signal_value_descriptions_at(v@, i as int) == Some(
                (d@, j as int),
            ) && i < j <= v@.len(),
            None => parse_signal_value_descriptions_at(v@, i as int) is None,
        },
{
    let a = scan_multispace(v, i);
    let keyword: [char; 4] = ['V', 'A', 'L', '_'];
    assert(keyword@ =~= val_keyword());
    if !tag_at(v, a, &keyword) {
        return None;
    }
    let b0 = scan_multispace(v, a + 4);
    let b = scan_space(v, b0);
    let (id, c) = match scan_u32(v, b) {
        Some(x) => x,
        None => return None,
    };
    let d = scan_space(v, c);
    let e = match scan_name(v, d) {
        Some(e) => e,
        None => return None,
    };
    let (value_descriptions, h) = match parse_descriptions_to_line_end_at(v, e) {
        Some(x) => x,
        None => return None,
    };
    let signal_name = string_from_range(v, d, e);
    Some((SignalValueDescriptions { message_id: id, signal_name, value_descriptions }, h))
}

/// Parses the `VAL_` line of a signal at the start of `input`; returns the
/// rest of the input and the value descriptions, or
/// `BadSignalValueDescriptions` where the input does not start with one.
pub fn parser_signal_value_descriptions(input: &str) -> (r: Result<
    (String, SignalValueDescriptions),
    DbcParseError,
>)
    ensures
        match r {
            Ok((rest, d)) => spec_parser_signal_value_descriptions(input@) == Some((rest@, d@)),
            Err(e) => spec_parser_signal_value_descriptions(input@) is None && e
                == DbcParseError::BadSignalValueDescriptions,
        },
{
    let cs = chars_of(input);
    let v = chars_from(&cs, scan_multispace(&cs, 0));
    match parse_signal_value_descriptions_at_pos(&v, 0) {
        Some((d, j)) => Ok((string_from_range(&v, j, v.len()), d)),
        None => Err(DbcParseError::BadSignalValueDescriptions),
    }
}

/// The views of a list.
pub open spec fn signal_value_descriptions_view(ds: Seq<SignalValueDescriptions>) -> Seq<SpecSignalValueDescriptions> {
    ds.map_values(|d: SignalValueDescriptions| d@)
}

/// The lines of this kind that follow one another from `j`, and the
/// position after the last.
pub open spec fn parse_signal_value_descriptions_list(s: Seq<char>, j: int) -> (Seq<SpecSignalValueDescriptions>, int)
    decreases s.len() - j,
{
    match parse_signal_value_descriptions_at(s, j) {
        Some((d, e)) => if j < e <= s.len() {
            let (rest, k) = parse_signal_value_descriptions_list(s, e);
            (seq![d] + rest, k)
        } else {
            (Seq::empty(), j)
        },
        None => (Seq::empty(), j),
    }
}

/// The `VAL_` line of a signal read at `j` ends after `j`, within the input.
pub proof fn lemma_signal_value_descriptions_end_bounds(s: Seq<char>, j: int)
    requires
        0 <= j,
    ensures
        parse_signal_value_descriptions_at(s, j) matches Some((_, f)) ==> j < f <= s.len(),
{
    broadcast use super::common_parsers::group_position_bounds;

    if parse_signal_value_descriptions_at(s, j) is Some {
        let a = skip_multispace(s, j);
        let b = skip_space(s, skip_multispace(s, a + 4));
        let c = parse_u32(s, b).unwrap().1;
        let e = parse_name(s, skip_space(s, c)).unwrap();
        lemma_descriptions_end_bounds(s, e);
    }
}

/// White space before the `VAL_` line of a signal (spaces, tabs, `\r` and
/// `\n`, in any mix) does not change what is read there.
pub proof fn lemma_signal_value_descriptions_skip_white_space(s: Seq<char>, j: int, k: int)
    requires
        0 <= j <= k <= s.len(),
        forall|m: int| j <= m < k ==> is_multispace(#[trigger] s[m]),
    ensures
        parse_signal_value_descriptions_at(s, j) == parse_signal_value_descriptions_at(s, k),
{
    lemma_run_end_through(s, j, k, CharClass::Multispace);
}

/// Every `VAL_` line of a signal in a run of them is read, the last line of
/// the input included (with or without a line break after it): where one
/// stands at `j`, the list read from `j` is that line's descriptions, then
/// the list read after it; and where that line ends the input, the list is
/// that line alone.
pub proof fn lemma_signal_value_descriptions_list_reads_line(s: Seq<char>, j: int)
    requires
        0 <= j,
        parse_signal_value_descriptions_at(s, j) is Some,
    ensures
        ({
            let (d, e) = parse_signal_value_descriptions_at(s, j).unwrap();
            &&& parse_signal_value_descriptions_list(s, j) == (
                seq![d] + parse_signal_value_descriptions_list(s, e).0,
                parse_signal_value_descriptions_list(s, e).1,
            )
            &&& e == s.len() ==> parse_signal_value_descriptions_list(s, j) == (seq![d], e)
        }),
{
    lemma_signal_value_descriptions_end_bounds(s, j);
    let (d, e) = parse_signal_value_descriptions_at(s, j).unwrap();
    if e == s.len() {
        assert(!has_tag(s, skip_multispace(s, e), val_keyword()));
        assert(parse_signal_value_descriptions_list(s, e).0 =~= Seq::<SpecSignalValueDescriptions>::empty());
        assert(seq![d] + Seq::<SpecSignalValueDescriptions>::empty() =~= seq![d]);
    }
}

/// Parses the lines of this kind that follow one another from `i`; returns
/// them and the position after the last.
pub fn parse_signal_value_descriptions_list_at(v: &Vec<char>, i: usize) -> (r: (Vec<SignalValueDescriptions>, usize))
    requires
        i <= v@.len(),
    ensures
        parse_signal_value_descriptions_list(v@, i as int) == (signal_value_descriptions_view(r.0@), r.1 as int),
        i <= r.1 <= v@.len(),
{
    let mut ds: Vec<SignalValueDescriptions> = Vec::new();
    let mut j = i;
    loop
        invariant
            i <= j <= v@.len(),
            parse_signal_value_descriptions_list(v@, i as int) == (
                signal_value_descriptions_view(ds@) + parse_signal_value_descriptions_list(v@, j as int).0,
                parse_signal_value_descriptions_list(v@, j as int).1,
            ),
        decreases v@.len() - j,
    {
        match parse_signal_value_descriptions_at_pos(v, j) {
            Some((d, e)) => {
                let ghost before = signal_value_descriptions_view(ds@);
                let ghost here = d@;
                ds.push(d);
                assert(signal_value_descriptions_view(ds@) =~= before.push(here));
                assert(before + parse_signal_value_descriptions_list(v@, j as int).0 =~= before.push(here)
                    + parse_signal_value_descriptions_list(v@, e as int).0);
                j = e;
            },
            None => {
                assert(parse_signal_value_descriptions_list(v@, j as int) == (Seq::<SpecSignalValueDescriptions>::empty(), j as int));
                assert(signal_value_descriptions_view(ds@) + Seq::empty() =~= signal_value_descriptions_view(ds@));
                return (ds, j);
            },
        }
    }
}

impl SignalValueDescriptions {
    /// Appends the written form of the value descriptions.
    pub fn write_to(&self, out: &mut String)
        ensures
            final(out)@ == old(out)@ + signal_value_descriptions_text(self@),
    {
        push_char(out, 'V');
        push_char(out, 'A');
        push_char(out, 'L');
        push_char(out, '_');
        push_char(out, ' ');
        push_u64(out, self.message_id as u64);
        push_char(out, ' ');
        let name = chars_of(self.signal_name.as_str());
        push_range(out, &name, 0, name.len());
        push_char(out, ' ');
        self.value_descriptions.write_to(out);
        push_char(out, ';');
        assert(name@.subrange(0, name@.len() as int) =~= self.signal_name@);
        assert(out@ =~= old(out)@ + signal_value_descriptions_text(self@));
    }

    /// The written form, e.g.
    /// `VAL_ 2147487969 Value0 2 "Value2" 1 "Value1" 0 "Value0";`.
    pub fn to_string(&self) -> (s: String)
        ensures
            s@ == signal_value_descriptions_text(self@),
    {
        let mut s = String::new();
        self.write_to(&mut s);
        s
    }
}

} // verus!
