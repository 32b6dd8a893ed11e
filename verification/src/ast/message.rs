//! Messages: the header `BO_ id name: size transmitter`, then the message's
//! signals, one per line, e.g.
//! `BO_ 112 MM5_10_TX1: 8 DRS_MM5_10` followed by ` SG_ Yaw_Rate : ...`.

use vstd::prelude::*;
use crate::text::{
    join_prefixed, lemma_join_prefixed_first, nat_text, push_char, push_slice, push_str, push_u64,
    string_from_range,
};
use super::common_parsers::{
    char_at, has_tag, is_dbc_name, is_multispace, lemma_parse_name_text, lemma_parse_u32_text,
    lemma_run_end, lemma_run_end_at, lemma_run_end_through, lemma_sub, parse_name, parse_u32, scan_multispace, scan_name, scan_space, scan_u32,
    skip_multispace, skip_space, tag_at, CharClass,
};
use super::signal::{
    lemma_signal_end_bounds, lemma_signal_text_first, lemma_signal_text_parse, parse_signal_at, parse_signal_at_pos, signal_is_writable, signal_text,
    Signal, SpecSignal,
};

verus! {

#[derive(Clone, Debug, PartialEq)]
pub struct MessageHeader {
    pub id: u32,
    pub name: String,
    pub size: u32,
    pub transmitter: String,
}

#[derive(Clone, Debug, PartialEq)]
pub struct Message {
    pub header: MessageHeader,
    pub signals: Vec<Signal>,
}

/// A message header as a mathematical value.
pub struct SpecMessageHeader {
    pub id: u32,
    pub name: Seq<char>,
    pub size: u32,
    pub transmitter: Seq<char>,
}

/// A message as a mathematical value.
pub struct SpecMessage {
    pub header: SpecMessageHeader,
    pub signals: Seq<SpecSignal>,
}

impl View for MessageHeader {
    type V = SpecMessageHeader;

    open spec fn view(&self) -> SpecMessageHeader {
        SpecMessageHeader {
            id: self.id,
            name: self.name@,
            size: self.size,
            transmitter: self.transmitter@,
        }
    }
}

pub open spec fn signals_view(gs: Seq<Signal>) -> Seq<SpecSignal> {
    gs.map_values(|g: Signal| g@)
}

impl View for Message {
    type V = SpecMessage;

    open spec fn view(&self) -> SpecMessage {
        SpecMessage { header: self.header@, signals: signals_view(self.signals@) }
    }
}

pub open spec fn message_keyword() -> Seq<char> {
    seq!['B', 'O', '_']
}

/// The header that starts at `i`: `BO_`, the id, the name, `:`, the size
/// and the transmitter, separated by spaces; the header and its end.
pub open spec fn parse_message_header_at(s: Seq<char>, i: int) -> Option<(SpecMessageHeader, int)> {
    if !has_tag(s, i, message_keyword()) {
        None
    } else {
        match parse_u32(s, skip_space(s, i + 3)) {
            None => None,
            Some((id, b)) => {
                let c = skip_space(s, b);
                match parse_name(s, c) {
                    None => None,
                    Some(d) => {
                        let e = skip_space(s, d);
                        if !char_at(s, e, ':') {
                            None
                        } else {
                            match parse_u32(s, skip_space(s, e + 1)) {
                                None => None,
                                Some((size, g)) => {
                                    let h = skip_space(s, g);
                                    match parse_name(s, h) {
                                        None => None,
                                        Some(k) => Some(
                                            (
                                                SpecMessageHeader {
                                                    id,
                                                    name: s.subrange(c, d),
                                                    size,
                                                    transmitter: s.subrange(h, k),
                                                },
                                                k,
                                            ),
                                        ),
                                    }
                                },
                            }
                        }
                    },
                }
            },
        }
    }
}

/// The signals from `j` on, each after white space; the signals and the end
/// of the last.
pub open spec fn parse_signal_list(s: Seq<char>, j: int) -> (Seq<SpecSignal>, int)
    decreases s.len() - j,
{
    match parse_signal_at(s, skip_multispace(s, j)) {
        Some((g, e)) => if j < e <= s.len() {
            let (rest, m) = parse_signal_list(s, e);
            (seq![g] + rest, m)
        } else {
            (Seq::empty(), j)
        },
        None => (Seq::empty(), j),
    }
}

/// The message that starts at `i`, with the white space around it, and the
/// position after it.
pub open spec fn parse_message_at(s: Seq<char>, i: int) -> Option<(SpecMessage, int)> {
    match parse_message_header_at(s, skip_multispace(s, i)) {
        None => None,
        Some((h, b)) => {
            let (gs, c) = parse_signal_list(s, b);
            Some((SpecMessage { header: h, signals: gs }, skip_multispace(s, c)))
        },
    }
}

/// The messages from `j` on; the messages and the position after the last.
pub open spec fn parse_message_list(s: Seq<char>, j: int) -> (Seq<SpecMessage>, int)
    decreases s.len() - j,
{
    match parse_message_at(s, j) {
        Some((m, e)) => if j < e <= s.len() {
            let (rest, k) = parse_message_list(s, e);
            (seq![m] + rest, k)
        } else {
            (Seq::empty(), j)
        },
        None => (Seq::empty(), j),
    }
}

/// How a header is written: `BO_ id name: size transmitter`.
pub open spec fn message_header_text(h: SpecMessageHeader) -> Seq<char> {
    message_keyword() + seq![' '] + nat_text(h.id as nat) + seq![' '] + h.name + seq![':', ' ']
        + nat_text(h.size as nat) + seq![' '] + h.transmitter
}

/// The written forms of signals.
pub open spec fn signal_texts(gs: Seq<SpecSignal>) -> Seq<Seq<char>> {
    gs.map_values(|g: SpecSignal| signal_text(g))
}

/// How a message is written: the header, then each signal on a line of its
/// own after a space.
pub open spec fn message_text(m: SpecMessage) -> Seq<char> {
    message_header_text(m.header) + join_prefixed(signal_texts(m.signals), seq!['\n', ' '])
}

/// What a message needs for its written form to read back as the same
/// message: names of the format and writable signals.
pub open spec fn message_is_writable(m: SpecMessage) -> bool {
    &&& is_dbc_name(m.header.name)
    &&& is_dbc_name(m.header.transmitter)
    &&& forall|k: int| 0 <= k < m.signals.len() ==> signal_is_writable(#[trigger] m.signals[k])
}

#[verifier::spinoff_prover]
#[verifier::rlimit(80)]
proof fn lemma_message_header_text_parse(s: Seq<char>, p: int, h: SpecMessageHeader)
    requires
        0 <= p,
        is_dbc_name(h.name),
        is_dbc_name(h.transmitter),
        p + message_header_text(h).len() <= s.len(),
        s.subrange(p, p + message_header_text(h).len()) == message_header_text(h),
        p + message_header_text(h).len() < s.len() ==> s[p + message_header_text(h).len()] == '\n',
    ensures
        parse_message_header_at(s, p) == Some((h, p + message_header_text(h).len())),
{
    let t = message_header_text(h);
    let l = t.len() as int;
    let ti = nat_text(h.id as nat);
    let tz = nat_text(h.size as nat);
    let li = ti.len() as int;
    let lz = tz.len() as int;
    let ln = h.name.len() as int;
    let lt = h.transmitter.len() as int;
    crate::text::lemma_nat_text_digits(h.id as nat);
    crate::text::lemma_nat_text_digits(h.size as nat);
    assert(l == 4 + li + 1 + ln + 2 + lz + 1 + lt);
    lemma_sub(s, p, t, 0, l);
    assert(t.subrange(0, 3) =~= message_keyword());
    lemma_sub(s, p, t, 0, 3);
    assert(t[3] == ' ' && t[4] == ti[0]);
    lemma_run_end_at(s, p + 3, p + 4, CharClass::Space);
    assert(t.subrange(4, 4 + li) =~= ti);
    lemma_sub(s, p, t, 4, 4 + li);
    assert(t[4 + li] == ' ');
    lemma_parse_u32_text(s, p + 4, h.id);
    let c = p + 5 + li;
    assert(t[5 + li] == h.name[0]);
    lemma_run_end_at(s, c - 1, c, CharClass::Space);
    assert(t.subrange(5 + li, 5 + li + ln) =~= h.name);
    lemma_sub(s, p, t, 5 + li, 5 + li + ln);
    assert(t[5 + li + ln] == ':');
    lemma_parse_name_text(s, c, h.name);
    let e = c + ln;
    lemma_run_end_at(s, e, e, CharClass::Space);
    assert(t[6 + li + ln] == ' ' && t[7 + li + ln] == tz[0]);
    lemma_run_end_at(s, e + 1, e + 2, CharClass::Space);
    assert(t.subrange(7 + li + ln, 7 + li + ln + lz) =~= tz);
    lemma_sub(s, p, t, 7 + li + ln, 7 + li + ln + lz);
    assert(t[7 + li + ln + lz] == ' ');
    lemma_parse_u32_text(s, e + 2, h.size);
    let g = e + 2 + lz;
    assert(t[8 + li + ln + lz] == h.transmitter[0]);
    lemma_run_end_at(s, g, g + 1, CharClass::Space);
    assert(t.subrange(8 + li + ln + lz, l) =~= h.transmitter);
    lemma_sub(s, p, t, 8 + li + ln + lz, l);
    lemma_parse_name_text(s, g + 1, h.transmitter);
}

pub open spec fn signal_separator() -> Seq<char> {
    seq!['\n', ' ']
}

#[verifier::spinoff_prover]
#[verifier::rlimit(80)]
proof fn lemma_signal_list_parse(s: Seq<char>, q: int, gs: Seq<SpecSignal>)
    requires
        0 <= q,
        q + join_prefixed(signal_texts(gs), signal_separator()).len() <= s.len(),
        s.subrange(q, q + join_prefixed(signal_texts(gs), signal_separator()).len())
            == join_prefixed(signal_texts(gs), signal_separator()),
        forall|k: int| 0 <= k < gs.len() ==> signal_is_writable(#[trigger] gs[k]),
        q + join_prefixed(signal_texts(gs), signal_separator()).len() < s.len() ==> s[q
            + join_prefixed(signal_texts(gs), signal_separator()).len()] == '\n',
        parse_signal_at(
            s,
            skip_multispace(s, q + join_prefixed(signal_texts(gs), signal_separator()).len()),
        ) is None,
    ensures
        parse_signal_list(s, q) == (
            gs,
            q + join_prefixed(signal_texts(gs), signal_separator()).len(),
        ),
    decreases gs.len(),
{
    let sep = signal_separator();
    let texts = signal_texts(gs);
    let t = join_prefixed(texts, sep);
    let l = t.len() as int;
    if gs.len() > 0 {
        lemma_join_prefixed_first(texts, sep);
        let g0 = gs[0];
        let t0 = signal_text(g0);
        let l0 = t0.len() as int;
        let rest = gs.drop_first();
        assert(texts.drop_first() =~= signal_texts(rest));
        let tr = join_prefixed(signal_texts(rest), sep);
        let e = q + 2 + l0;
        lemma_sub(s, q, t, 0, l);
        assert(t[0] == '\n' && t[1] == ' ');
        lemma_signal_text_first(g0);
        assert(t[2] == t0[0]);
        lemma_run_end_at(s, q, q + 2, CharClass::Multispace);
        assert(t.subrange(2, 2 + l0) =~= t0);
        lemma_sub(s, q, t, 2, 2 + l0);
        assert(t.subrange(2 + l0, l) =~= tr);
        lemma_sub(s, q, t, 2 + l0, l);
        if rest.len() > 0 {
            lemma_join_prefixed_first(signal_texts(rest), sep);
            assert(s[e] == tr[0]);
        }
        assert(signal_is_writable(gs[0]));
        lemma_signal_text_parse(s, q + 2, g0);
        assert forall|k: int| 0 <= k < rest.len() implies signal_is_writable(#[trigger] rest[k]) by {
            assert(rest[k] == gs[k + 1]);
        }
        lemma_signal_list_parse(s, e, rest);
        assert(seq![g0] + rest =~= gs);
    }
}

/// A written message, followed by a line break or the end of the input and
/// then by anything but a signal, reads back as the same message, whenever
/// the message is writable.
#[verifier::spinoff_prover]
#[verifier::rlimit(80)]
pub proof fn lemma_message_text_parse(s: Seq<char>, p: int, m: SpecMessage)
    requires
        0 <= p,
        message_is_writable(m),
        p + message_text(m).len() <= s.len(),
        s.subrange(p, p + message_text(m).len()) == message_text(m),
        p + message_text(m).len() < s.len() ==> s[p + message_text(m).len()] == '\n',
        parse_signal_at(s, skip_multispace(s, p + message_text(m).len())) is None,
    ensures
        parse_message_at(s, p) == Some((m, skip_multispace(s, p + message_text(m).len()))),
{
    let ht = message_header_text(m.header);
    let st = join_prefixed(signal_texts(m.signals), signal_separator());
    let lh = ht.len() as int;
    let ls = st.len() as int;
    let t = message_text(m);
    lemma_sub(s, p, t, 0, lh + ls);
    assert(t.subrange(0, lh) =~= ht);
    lemma_sub(s, p, t, 0, lh);
    assert(t.subrange(lh, lh + ls) =~= st);
    lemma_sub(s, p, t, lh, lh + ls);
    assert(t[0] == 'B');
    lemma_run_end_at(s, p, p, CharClass::Multispace);
    if m.signals.len() > 0 {
        lemma_join_prefixed_first(signal_texts(m.signals), signal_separator());
        assert(s[p + lh] == st[0]);
    }
    lemma_message_header_text_parse(s, p, m.header);
    lemma_signal_list_parse(s, p + lh, m.signals);
}

/// A written message starts with `B`.
pub proof fn lemma_message_text_first(m: SpecMessage)
    ensures
        message_text(m).len() > 0,
        message_text(m)[0] == 'B',
{
    assert(message_header_text(m.header)[0] == 'B');
}

/// White space before the signals (spaces, tabs, `\r` and `\n`, in any mix)
/// does not change which signals are read.
pub proof fn lemma_signal_list_skips_white_space(s: Seq<char>, j: int, k: int)
    requires
        0 <= j <= k <= s.len(),
        forall|m: int| j <= m < k ==> is_multispace(#[trigger] s[m]),
    ensures
        parse_signal_list(s, j).0 == parse_signal_list(s, k).0,
        parse_signal_list(s, k).0.len() > 0 ==> parse_signal_list(s, j).1 == parse_signal_list(
            s,
            k,
        ).1,
{
    lemma_run_end_through(s, j, k, CharClass::Multispace);
    lemma_run_end(s, k, CharClass::Multispace);
    lemma_signal_end_bounds(s, skip_multispace(s, k));
}

/// A signal that stands after white space is read, and the signals after it
/// follow it: every `SG_` line is read, whatever line breaks (`\n` or
/// `\r\n`) and indentation stand before it.
pub proof fn lemma_signal_list_reads_signal(s: Seq<char>, j: int, k: int)
    requires
        0 <= j <= k <= s.len(),
        forall|m: int| j <= m < k ==> is_multispace(#[trigger] s[m]),
        parse_signal_at(s, k) is Some,
    ensures
        ({
            let (g, e) = parse_signal_at(s, k).unwrap();
            parse_signal_list(s, j) == (seq![g] + parse_signal_list(s, e).0, parse_signal_list(
                s,
                e,
            ).1)
        }),
{
    assert(s.subrange(k, k + 3)[0] == s[k]);
    assert(s[k] == 'S');
    lemma_run_end_at(s, k, k, CharClass::Multispace);
    lemma_run_end_through(s, j, k, CharClass::Multispace);
    lemma_signal_end_bounds(s, k);
}

/// The end of a header lies after its start, within the input.
proof fn lemma_message_header_end_bounds(s: Seq<char>, i: int)
    requires
        0 <= i,
    ensures
        parse_message_header_at(s, i) matches Some((_, b)) ==> i < b <= s.len(),
{
    broadcast use super::common_parsers::group_position_bounds;

}

/// The `SG_` lines that follow a message header, after any white space, are
/// the message's signals: the message read holds the signal that stands
/// there first, then the signals after it.
pub proof fn lemma_message_reads_signals(s: Seq<char>, i: int, k: int)
    requires
        0 <= i,
        parse_message_header_at(s, skip_multispace(s, i)) is Some,
        parse_message_header_at(s, skip_multispace(s, i)).unwrap().1 <= k <= s.len(),
        forall|m: int|
            parse_message_header_at(s, skip_multispace(s, i)).unwrap().1 <= m < k ==> is_multispace(
                #[trigger] s[m],
            ),
        parse_signal_at(s, k) is Some,
    ensures
        ({
            let (h, b) = parse_message_header_at(s, skip_multispace(s, i)).unwrap();
            let (g, e) = parse_signal_at(s, k).unwrap();
            let (rest, c) = parse_signal_list(s, e);
            parse_message_at(s, i) == Some(
                (SpecMessage { header: h, signals: seq![g] + rest }, skip_multispace(s, c)),
            )
        }),
{
    broadcast use super::common_parsers::group_position_bounds;

    let p = skip_multispace(s, i);
    lemma_message_header_end_bounds(s, p);
    let b = parse_message_header_at(s, p).unwrap().1;
    lemma_signal_list_reads_signal(s, b, k);
}

/// The signals read from `j` end at or after `j`, within the input.
pub proof fn lemma_signal_list_end_bounds(s: Seq<char>, j: int)
    requires
        0 <= j <= s.len(),
    ensures
        j <= parse_signal_list(s, j).1 <= s.len(),
    decreases s.len() - j,
{
    match parse_signal_at(s, skip_multispace(s, j)) {
        Some((g, e)) => if j < e <= s.len() {
            lemma_signal_list_end_bounds(s, e);
        },
        None => {},
    }
}

/// A message read at `i` ends after `i`, within the input.
pub proof fn lemma_message_end_bounds(s: Seq<char>, i: int)
    requires
        0 <= i <= s.len(),
    ensures
        parse_message_at(s, i) matches Some((_, e)) ==> i < e <= s.len(),
{
    broadcast use super::common_parsers::group_position_bounds;

    let p = skip_multispace(s, i);
    lemma_message_header_end_bounds(s, p);
    if parse_message_header_at(s, p) is Some {
        lemma_signal_list_end_bounds(s, parse_message_header_at(s, p).unwrap().1);
    }
}

/// White space before a message (spaces, tabs, `\r` and `\n`, in any mix)
/// does not change the message read.
pub proof fn lemma_message_skips_white_space(s: Seq<char>, j: int, k: int)
    requires
        0 <= j <= k <= s.len(),
        forall|m: int| j <= m < k ==> is_multispace(#[trigger] s[m]),
    ensures
        parse_message_at(s, j) == parse_message_at(s, k),
{
    lemma_run_end_through(s, j, k, CharClass::Multispace);
}

/// Every message in a run of them is read, the last of the input included:
/// where one stands at `j`, the messages read from `j` are that message,
/// then the messages read after it; and where it ends the input, that
/// message alone.
pub proof fn lemma_message_list_reads_message(s: Seq<char>, j: int)
    requires
        0 <= j <= s.len(),
        parse_message_at(s, j) is Some,
    ensures
        ({
            let (m, e) = parse_message_at(s, j).unwrap();
            &&& parse_message_list(s, j) == (
                seq![m] + parse_message_list(s, e).0,
                parse_message_list(s, e).1,
            )
            &&& e == s.len() ==> parse_message_list(s, j) == (seq![m], e)
        }),
{
    lemma_message_end_bounds(s, j);
    let (m, e) = parse_message_at(s, j).unwrap();
    if e == s.len() {
        lemma_run_end_at(s, e, e, CharClass::Multispace);
        assert(!has_tag(s, e, message_keyword()));
        assert(parse_message_list(s, e).0 =~= Seq::<SpecMessage>::empty());
        assert(seq![m] + Seq::<SpecMessage>::empty() =~= seq![m]);
    }
}

fn parse_message_header_at_pos(v: &Vec<char>, i: usize) -> (r: Option<(MessageHeader, usize)>)
    requires
        i <= v@.len(),
    ensures
        match r {
            Some((h, j)) => parse_message_header_at(v@, i as int) == Some((h@, j as int)) && i < j
                <= v@.len(),
            None => parse_message_header_at(v@, i as int) is None,
        },
{
    let keyword: [char; 3] = ['B', 'O', '_'];
    assert(keyword@ =~= message_keyword());
    if !tag_at(v, i, &keyword) {
        return None;
    }
    let (id, b) = match scan_u32(v, scan_space(v, i + 3)) {
        Some(x) => x,
        None => return None,
    };
    let c = scan_space(v, b);
    let d = match scan_name(v, c) {
        Some(d) => d,
        None => return None,
    };
    let e = scan_space(v, d);
    if !super::common_parsers::char_is(v, e, ':') {
        return None;
    }
    let (size, g) = match scan_u32(v, scan_space(v, e + 1)) {
        Some(x) => x,
        None => return None,
    };
    let h = scan_space(v, g);
    let k = match scan_name(v, h) {
        Some(k) => k,
        None => return None,
    };
    let name = string_from_range(v, c, d);
    let transmitter = string_from_range(v, h, k);
    Some((MessageHeader { id, name, size, transmitter }, k))
}

fn parse_signal_list_at(v: &Vec<char>, i: usize) -> (r: (Vec<Signal>, usize))
    requires
        i <= v@.len(),
    ensures
        parse_signal_list(v@, i as int) == (signals_view(r.0@), r.1 as int),
        i <= r.1 <= v@.len(),
{
    let mut signals: Vec<Signal> = Vec::new();
    let mut j = i;
    loop
        invariant
            i <= j <= v@.len(),
            parse_signal_list(v@, i as int) == (
                signals_view(signals@) + parse_signal_list(v@, j as int).0,
                parse_signal_list(v@, j as int).1,
            ),
        decreases v@.len() - j,
    {
        let a = scan_multispace(v, j);
        match parse_signal_at_pos(v, a) {
            Some((g, e)) => {
                let ghost before = signals_view(signals@);
                let ghost here = g@;
                signals.push(g);
                assert(signals_view(signals@) =~= before.push(here));
                assert(before + parse_signal_list(v@, j as int).0 =~= before.push(here)
                    + parse_signal_list(v@, e as int).0);
                j = e;
            },
            None => {
                assert(parse_signal_list(v@, j as int) == (Seq::<SpecSignal>::empty(), j as int));
                assert(signals_view(signals@) + Seq::empty() =~= signals_view(signals@));
                return (signals, j);
            },
        }
    }
}

/// Parses the message that starts at `i` (white space around it included);
/// returns it and the position after it.
pub fn parse_message_at_pos(v: &Vec<char>, i: usize) -> (r: Option<(Message, usize)>)
    requires
        i <= v@.len(),
    ensures
        match r {
            Some((m, j)) => parse_message_at(v@, i as int) == Some((m@, j as int)) && i < j
                <= v@.len(),
            None => parse_message_at(v@, i as int) is None,
        },
{
    let (header, b) = match parse_message_header_at_pos(v, scan_multispace(v, i)) {
        Some(x) => x,
        None => return None,
    };
    let (signals, c) = parse_signal_list_at(v, b);
    Some((Message { header, signals }, scan_multispace(v, c)))
}

pub open spec fn messages_view(ms: Seq<Message>) -> Seq<SpecMessage> {
    ms.map_values(|m: Message| m@)
}

/// Parses the messages that follow one another from `i`; returns them and
/// the position after the last.
pub fn parse_message_list_at(v: &Vec<char>, i: usize) -> (r: (Vec<Message>, usize))
    requires
        i <= v@.len(),
    ensures
        parse_message_list(v@, i as int) == (messages_view(r.0@), r.1 as int),
        i <= r.1 <= v@.len(),
{
    let mut messages: Vec<Message> = Vec::new();
    let mut j = i;
    loop
        invariant
            i <= j <= v@.len(),
            parse_message_list(v@, i as int) == (
                messages_view(messages@) + parse_message_list(v@, j as int).0,
                parse_message_list(v@, j as int).1,
            ),
        decreases v@.len() - j,
    {
        match parse_message_at_pos(v, j) {
            Some((m, e)) => {
                let ghost before = messages_view(messages@);
                let ghost here = m@;
                messages.push(m);
                assert(messages_view(messages@) =~= before.push(here));
                assert(before + parse_message_list(v@, j as int).0 =~= before.push(here)
                    + parse_message_list(v@, e as int).0);
                j = e;
            },
            None => {
                assert(parse_message_list(v@, j as int) == (Seq::<SpecMessage>::empty(), j as int));
                assert(messages_view(messages@) + Seq::empty() =~= messages_view(messages@));
                return (messages, j);
            },
        }
    }
}

impl MessageHeader {
    /// Appends the header.
    pub fn write_to(&self, out: &mut String)
        ensures
            final(out)@ == old(out)@ + message_header_text(self@),
    {
        let head: [char; 4] = ['B', 'O', '_', ' '];
        push_slice(out, &head);
        push_u64(out, self.id as u64);
        push_char(out, ' ');
        push_str(out, self.name.as_str());
        push_char(out, ':');
        push_char(out, ' ');
        push_u64(out, self.size as u64);
        push_char(out, ' ');
        push_str(out, self.transmitter.as_str());
        assert(head@ =~= message_keyword() + seq![' ']);
        assert(out@ =~= old(out)@ + message_header_text(self@));
    }
}

impl Message {
    /// Appends the written form of the message.
    pub fn write_to(&self, out: &mut String)
        ensures
            final(out)@ == old(out)@ + message_text(self@),
    {
        self.header.write_to(out);
        let ghost texts = signal_texts(signals_view(self.signals@));
        let n = self.signals.len();
        assert(texts.take(0) =~= Seq::<Seq<char>>::empty());
        for k in 0..n
            invariant
                n == self.signals@.len(),
                texts == signal_texts(signals_view(self.signals@)),
                out@ == old(out)@ + message_header_text(self.header@) + join_prefixed(
                    texts.take(k as int),
                    seq!['\n', ' '],
                ),
        {
            push_char(out, '\n');
            push_char(out, ' ');
            self.signals[k].write_to(out);
            proof {
                let t = texts.take(k + 1);
                assert(t.drop_last() =~= texts.take(k as int));
                assert(t.last() == signal_text(self.signals@[k as int]@));
            }
            assert(out@ =~= old(out)@ + message_header_text(self.header@) + join_prefixed(
                texts.take(k + 1),
                seq!['\n', ' '],
            ));
        }
        assert(texts.take(n as int) =~= texts);
    }

    /// The written form of the message, e.g.
    /// `BO_ 117 DRS_RX_ID0: 8 ABS`.
    pub fn to_string(&self) -> (s: String)
        ensures
            s@ == message_text(self@),
    {
        let mut s = String::new();
        self.write_to(&mut s);
        s
    }
}

} // verus!
