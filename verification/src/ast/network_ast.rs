//! A whole DBC file: the version, the new symbols, the bit timing, the
//! nodes, the value tables, the messages and the value descriptions of
//! signals and of environment variables, in this order.

use vstd::prelude::*;
use crate::text::{chars_from, chars_of, join_prefixed, push_char, str_debug, str_debug_text, string_from_range};
use super::bit_timing::{
    bit_timing_text, lemma_bit_timing_text_parse, parse_bit_timing_at, parse_bit_timing_at_pos,
    BitTiming,
};
use super::common_parsers::{
    is_c_identifier, is_dbc_name, is_multispace, lemma_leading_space_dropped, lemma_run_end_at,
    lemma_sub, scan_multispace, skip_multispace, without_leading_space, CharClass,
};
use super::env_var_value_descriptions::{
    env_var_value_descriptions_view, parse_env_var_value_descriptions_at,
    parse_env_var_value_descriptions_list,
    parse_env_var_value_descriptions_list_at, EnvironmentVariableValueDescriptions,
    SpecEnvironmentVariableValueDescriptions,
};
use super::error::{is_debug_msg, is_one_line_msg, located_message, located_text, DbcParseError};
use super::message::{
    lemma_message_text_first, lemma_message_text_parse, message_is_writable, message_text,
    messages_view, parse_message_at, parse_message_list, parse_message_list_at, Message,
    SpecMessage,
};
use super::new_symbols::{
    lemma_new_symbols_text_parse, new_symbols_text, parse_new_symbols_at, parse_new_symbols_at_pos,
    parse_symbols, NewSymbols,
};
use super::nodes::{lemma_nodes_text_parse, nodes_text, parse_nodes_at, parse_nodes_at_pos, Nodes};
use super::signal_value_descriptions::{
    parse_signal_value_descriptions_at, parse_signal_value_descriptions_list, parse_signal_value_descriptions_list_at,
    signal_value_descriptions_view, SignalValueDescriptions, SpecSignalValueDescriptions,
};
use super::value_tables::{
    parse_value_table_at, parse_value_tables_at, parser_value_tables, value_tables_view, SpecValueTable, ValueTable,
};
use super::signal::parse_signal_at;
use super::version::{
    lemma_version_text_parse, parse_version_at, parse_version_at_pos, version_text, Version,
};

verus! {

#[derive(Clone, Debug, PartialEq)]
pub struct NetworkAst {
    // VERSION "xxx"
    pub version: Version,
    // NS_:
    pub new_symbols: NewSymbols,
    // BS_:
    pub bit_timing: Option<BitTiming>,
    // BU_:
    pub nodes: Nodes,
    // VAL_TABLE_
    pub value_tables: Option<Vec<ValueTable>>,
    // BO_
    pub messages: Vec<Message>,
    // VAL_ message_id signal_name [value_descriptions];
    pub signal_value_descriptions: Vec<SignalValueDescriptions>,
    // VAL_ env_var_name [value_descriptions];
    pub env_var_value_descriptions: Vec<EnvironmentVariableValueDescriptions>,
}

/// A DBC file as a mathematical value.
pub struct SpecNetworkAst {
    pub version: Seq<char>,
    pub new_symbols: Seq<Seq<char>>,
    pub bit_timing: Option<BitTiming>,
    pub nodes: Seq<Seq<char>>,
    pub value_tables: Option<Seq<SpecValueTable>>,
    pub messages: Seq<SpecMessage>,
    pub signal_value_descriptions: Seq<SpecSignalValueDescriptions>,
    pub env_var_value_descriptions: Seq<SpecEnvironmentVariableValueDescriptions>,
}

impl View for NetworkAst {
    type V = SpecNetworkAst;

    open spec fn view(&self) -> SpecNetworkAst {
        SpecNetworkAst {
            version: self.version@,
            new_symbols: self.new_symbols@,
            bit_timing: self.bit_timing,
            nodes: self.nodes@,
            value_tables: match self.value_tables {
                Some(ts) => Some(value_tables_view(ts@)),
                None => None,
            },
            messages: messages_view(self.messages@),
            signal_value_descriptions: signal_value_descriptions_view(
                self.signal_value_descriptions@,
            ),
            env_var_value_descriptions: env_var_value_descriptions_view(
                self.env_var_value_descriptions@,
            ),
        }
    }
}

/// The sections after the nodes, from `p` on (white space skipped before
/// and after each): the value tables, the messages, the value descriptions
/// of signals and those of environment variables, and where they end.
pub open spec fn parse_body(s: Seq<char>, p: int) -> (
    Option<Seq<SpecValueTable>>,
    Seq<SpecMessage>,
    Seq<SpecSignalValueDescriptions>,
    Seq<SpecEnvironmentVariableValueDescriptions>,
    int,
) {
    let (tables, a) = parse_value_tables_at(s, skip_multispace(s, p));
    let (messages, b) = parse_message_list(s, skip_multispace(s, a));
    let (signal_vds, c) = parse_signal_value_descriptions_list(s, skip_multispace(s, b));
    let (env_vds, d) = parse_env_var_value_descriptions_list(s, skip_multispace(s, c));
    (tables, messages, signal_vds, env_vds, skip_multispace(s, d))
}

/// What parsing a DBC file from the start of `s` gives: the file and where
/// it ends, or the error of the first section that is missing or malformed
/// (the version, the new symbols or the nodes; the other sections may be
/// absent). White space is skipped before and after each section.
pub open spec fn parse_network_at(s: Seq<char>) -> Result<(SpecNetworkAst, int), DbcParseError> {
    match parse_version_at(s, skip_multispace(s, 0)) {
        None => Err(DbcParseError::BadVersion),
        Some((version, a)) => match parse_new_symbols_at(s, skip_multispace(s, a)) {
            None => Err(DbcParseError::BadNames),
            Some((new_symbols, b)) => {
                let c = skip_multispace(s, b);
                let (bit_timing, d) = match parse_bit_timing_at(s, c) {
                    Some((bt, e)) => (Some(bt), skip_multispace(s, e)),
                    None => (None, c),
                };
                match parse_nodes_at(s, d) {
                    None => Err(DbcParseError::BadCanNodes),
                    Some((nodes, e)) => {
                        let (tables, messages, signal_vds, env_vds, f) = parse_body(s, e);
                        Ok(
                            (
                                SpecNetworkAst {
                                    version,
                                    new_symbols,
                                    bit_timing,
                                    nodes,
                                    value_tables: tables,
                                    messages,
                                    signal_value_descriptions: signal_vds,
                                    env_var_value_descriptions: env_vds,
                                },
                                f,
                            ),
                        )
                    },
                }
            },
        },
    }
}

/// What `dbc_value` gives for the input `s`: the white space it starts with
/// is skipped, then the rest of the input after the file and the file, or an
/// error.
pub open spec fn spec_dbc_value(s: Seq<char>) -> Result<(Seq<char>, SpecNetworkAst), DbcParseError> {
    let u = without_leading_space(s);
    match parse_network_at(u) {
        Ok((a, j)) => Ok((u.subrange(j, u.len() as int), a)),
        Err(e) => Err(e),
    }
}

/// White space (spaces, tabs, line breaks) written before a DBC file does
/// not change what `dbc_value` gives.
pub proof fn lemma_dbc_value_leading_space(w: Seq<char>, s: Seq<char>)
    requires
        forall|j: int| 0 <= j < w.len() ==> is_multispace(#[trigger] w[j]),
    ensures
        spec_dbc_value(w + s) == spec_dbc_value(s),
{
    lemma_leading_space_dropped(w, s);
}

/// The messages written one after the other, each followed by a line break.
pub open spec fn messages_text(ms: Seq<SpecMessage>) -> Seq<char> {
    join_prefixed(ms.map_values(|m: SpecMessage| message_text(m) + seq!['\n']), Seq::empty())
}

/// How a file is written: the version line and an empty line, the new
/// symbols, the bit timing (where there is one), the nodes and the
/// messages, each followed by a line break. The value tables and the value
/// descriptions are not written.
#[verifier::opaque]
pub open spec fn network_ast_text(a: SpecNetworkAst) -> Seq<char> {
    version_text(a.version) + seq!['\n', '\n'] + new_symbols_text(a.new_symbols) + seq!['\n']
        + bit_timing_line(a.bit_timing) + nodes_text(a.nodes) + seq!['\n'] + messages_text(
        a.messages,
    )
}

/// The messages of a written file, up to its end, read back as the same
/// messages.
#[verifier::spinoff_prover]
#[verifier::rlimit(80)]
proof fn lemma_message_list_parse(s: Seq<char>, q: int, ms: Seq<SpecMessage>)
    requires
        0 <= q,
        q + messages_text(ms).len() == s.len(),
        s.subrange(q, s.len() as int) == messages_text(ms),
        forall|k: int| 0 <= k < ms.len() ==> message_is_writable(#[trigger] ms[k]),
    ensures
        parse_message_list(s, q) == (ms, s.len() as int),
    decreases ms.len(),
{
    let f = |m: SpecMessage| message_text(m) + seq!['\n'];
    let texts = ms.map_values(f);
    let t = messages_text(ms);
    let l = t.len() as int;
    if ms.len() == 0 {
        lemma_run_end_at(s, q, q, CharClass::Multispace);
        assert(parse_message_at(s, q) is None);
    } else {
        crate::text::lemma_join_prefixed_first(texts, Seq::empty());
        let m0 = ms[0];
        let t0 = message_text(m0);
        let l0 = t0.len() as int;
        let rest = ms.drop_first();
        assert(texts.drop_first() =~= rest.map_values(f));
        let tr = messages_text(rest);
        assert(t =~= t0 + seq!['\n'] + tr);
        lemma_sub(s, q, t, 0, l);
        assert(t.subrange(0, l0) =~= t0);
        lemma_sub(s, q, t, 0, l0);
        assert(t[l0] == '\n');
        assert(t.subrange(l0 + 1, l) =~= tr);
        lemma_sub(s, q, t, l0 + 1, l);
        let e = q + l0 + 1;
        if rest.len() > 0 {
            crate::text::lemma_join_prefixed_first(rest.map_values(f), Seq::empty());
            lemma_message_text_first(rest[0]);
            assert(tr[0] == message_text(rest[0])[0]);
            assert(s[e] == 'B');
        } else {
            assert(tr.len() == 0);
        }
        lemma_run_end_at(s, q + l0, e, CharClass::Multispace);
        lemma_run_end_at(s, e, e, CharClass::Multispace);
        assert(parse_signal_at(s, e) is None);
        assert(message_is_writable(ms[0]));
        lemma_message_text_parse(s, q, m0);
        assert forall|k: int| 0 <= k < rest.len() implies message_is_writable(#[trigger] rest[k]) by {
            assert(rest[k] == ms[k + 1]);
        }
        lemma_message_list_parse(s, e, rest);
        assert(seq![m0] + rest =~= ms);
    }
}

proof fn lemma_body_parse(s: Seq<char>, e: int, ms: Seq<SpecMessage>)
    requires
        0 <= e,
        e + 1 + messages_text(ms).len() == s.len(),
        s[e] == '\n',
        s.subrange(e + 1, s.len() as int) == messages_text(ms),
        forall|k: int| 0 <= k < ms.len() ==> message_is_writable(#[trigger] ms[k]),
    ensures
        parse_body(s, e) == (
            None::<Seq<SpecValueTable>>,
            ms,
            Seq::<SpecSignalValueDescriptions>::empty(),
            Seq::<SpecEnvironmentVariableValueDescriptions>::empty(),
            s.len() as int,
        ),
{
    let m0 = e + 1;
    let n = s.len() as int;
    if ms.len() > 0 {
        let f = |m: SpecMessage| message_text(m) + seq!['\n'];
        crate::text::lemma_join_prefixed_first(ms.map_values(f), Seq::empty());
        lemma_message_text_first(ms[0]);
        assert(messages_text(ms)[0] == 'B');
        assert(s[m0] == s.subrange(m0, n)[0]);
    }
    lemma_run_end_at(s, e, m0, CharClass::Multispace);
    lemma_run_end_at(s, m0, m0, CharClass::Multispace);
    assert(parse_value_table_at(s, m0) is None);
    lemma_message_list_parse(s, m0, ms);
    lemma_run_end_at(s, n, n, CharClass::Multispace);
    assert(parse_signal_value_descriptions_at(s, n) is None);
    assert(parse_env_var_value_descriptions_at(s, n) is None);
}

/// What a file needs for its written form to read back as the same file:
/// a version without double quotes, new symbols that are C identifiers,
/// nodes and messages whose names are names of the format, writable
/// signals, and none of the sections that are not written (value tables and
/// value descriptions).
pub open spec fn network_is_writable(a: SpecNetworkAst) -> bool {
    &&& forall|j: int| 0 <= j < a.version.len() ==> #[trigger] a.version[j] != '"'
    &&& forall|k: int| 0 <= k < a.new_symbols.len() ==> is_c_identifier(#[trigger] a.new_symbols[k])
    &&& forall|k: int| 0 <= k < a.nodes.len() ==> is_dbc_name(#[trigger] a.nodes[k])
    &&& forall|k: int| 0 <= k < a.messages.len() ==> message_is_writable(#[trigger] a.messages[k])
    &&& a.value_tables is None
    &&& a.signal_value_descriptions.len() == 0
    &&& a.env_var_value_descriptions.len() == 0
}

pub open spec fn bit_timing_line(b: Option<BitTiming>) -> Seq<char> {
    match b {
        Some(x) => bit_timing_text(x) + seq!['\n'],
        None => Seq::empty(),
    }
}

#[verifier::spinoff_prover]
#[verifier::rlimit(80)]
proof fn lemma_front_parse(s: Seq<char>, a: SpecNetworkAst)
    requires
        network_is_writable(a),
        s == network_ast_text(a),
    ensures
        ({
            let v = version_text(a.version).len() as int;
            let n1 = v + 2 + new_symbols_text(a.new_symbols).len();
            &&& skip_multispace(s, 0) == 0
            &&& parse_version_at(s, skip_multispace(s, 0)) == Some((a.version, v))
            &&& skip_multispace(s, v) == v + 2
            &&& parse_new_symbols_at(s, v + 2) == Some((a.new_symbols, n1))
            &&& skip_multispace(s, n1) == n1 + 1
        }),
{
    reveal(network_ast_text);
    let n = s.len() as int;
    let vt = version_text(a.version);
    let nt = new_symbols_text(a.new_symbols);
    let bt = bit_timing_line(a.bit_timing);
    let dt = nodes_text(a.nodes);
    let mt = messages_text(a.messages);
    let v = vt.len() as int;
    let n0 = v + 2;
    let n1 = n0 + nt.len();
    let b0 = n1 + 1;
    assert(s =~= vt + seq!['\n', '\n'] + nt + seq!['\n'] + (bt + dt + seq!['\n'] + mt));
    let rest = bt + dt + seq!['\n'] + mt;
    assert(s.subrange(b0, n) =~= rest);
    assert(n == b0 + rest.len());
    assert(s.subrange(0, n) =~= s);
    lemma_sub(s, 0, s, 0, n);
    // the version
    assert(s.subrange(0, v) =~= vt);
    assert(s[0] == 'V');
    lemma_run_end_at(s, 0, 0, CharClass::Multispace);
    lemma_version_text_parse(s, 0, a.version);
    assert(s[v] == '\n' && s[v + 1] == '\n' && s[n0] == 'N');
    lemma_run_end_at(s, v, n0, CharClass::Multispace);
    // what follows the new symbols: `BS_:` or `BU_:`
    let kw = if a.bit_timing is Some {
        seq!['B', 'S', '_']
    } else {
        seq!['B', 'U', '_']
    };
    assert(rest.subrange(0, 3) =~= kw && rest[3] == ':');
    lemma_sub(s, b0, rest, 0, 4);
    lemma_sub(s, b0, rest, 0, 3);
    lemma_run_end_at(s, n1, b0, CharClass::Multispace);
    crate::ast::common_parsers::lemma_ident_end_text(s, b0, kw);
    lemma_run_end_at(s, b0 + 3, b0 + 3, CharClass::Space);
    assert(parse_symbols(s, n1) == (Seq::<Seq<char>>::empty(), n1));
    // the new symbols
    assert(s.subrange(n0, n1) =~= nt);
    assert(s[n1] == '\n');
    lemma_new_symbols_text_parse(s, n0, a.new_symbols);
}

#[verifier::spinoff_prover]
#[verifier::rlimit(80)]
proof fn lemma_middle_parse(s: Seq<char>, a: SpecNetworkAst)
    requires
        network_is_writable(a),
        s == network_ast_text(a),
    ensures
        ({
            let b0 = version_text(a.version).len() + 3 + new_symbols_text(a.new_symbols).len() as int;
            let d = b0 + bit_timing_line(a.bit_timing).len() as int;
            let (bit_timing, d2) = match parse_bit_timing_at(s, b0) {
                Some((bt, e)) => (Some(bt), skip_multispace(s, e)),
                None => (None, b0),
            };
            &&& bit_timing == a.bit_timing
            &&& d2 == d
            &&& parse_nodes_at(s, d) == Some((a.nodes, d + nodes_text(a.nodes).len()))
        }),
{
    reveal(network_ast_text);
    let n = s.len() as int;
    let vt = version_text(a.version);
    let nt = new_symbols_text(a.new_symbols);
    let bt = bit_timing_line(a.bit_timing);
    let dt = nodes_text(a.nodes);
    let mt = messages_text(a.messages);
    let b0 = vt.len() + 3 + nt.len() as int;
    let d = b0 + bt.len() as int;
    let e = d + dt.len() as int;
    assert(s =~= (vt + seq!['\n', '\n'] + nt + seq!['\n']) + bt + dt + seq!['\n'] + mt);
    let rest = bt + dt + seq!['\n'] + mt;
    assert(s.subrange(b0, n) =~= rest);
    lemma_sub(s, b0, rest, 0, rest.len() as int);
    assert(dt[0] == 'B' && dt[1] == 'U');
    match a.bit_timing {
        Some(b) => {
            let tb = bit_timing_text(b);
            assert(rest.subrange(0, tb.len() as int) =~= tb);
            lemma_sub(s, b0, rest, 0, tb.len() as int);
            assert(s[b0 + tb.len()] == '\n');
            lemma_bit_timing_text_parse(s, b0, b);
            assert(s[d] == 'B');
            lemma_run_end_at(s, b0 + tb.len(), d, CharClass::Multispace);
        },
        None => {
            assert(s[b0 + 1] == 'U');
            assert(parse_bit_timing_at(s, b0) is None);
        },
    }
    assert(rest.subrange(bt.len() as int, bt.len() + dt.len() as int) =~= dt);
    lemma_sub(s, b0, rest, bt.len() as int, bt.len() + dt.len() as int);
    assert(s[e] == '\n');
    lemma_nodes_text_parse(s, d, a.nodes);
}

proof fn lemma_back_layout(s: Seq<char>, a: SpecNetworkAst)
    requires
        s == network_ast_text(a),
    ensures
        ({
            let e = version_text(a.version).len() + 3 + new_symbols_text(a.new_symbols).len()
                + bit_timing_line(a.bit_timing).len() + nodes_text(a.nodes).len() as int;
            &&& e + 1 + messages_text(a.messages).len() == s.len()
            &&& s[e] == '\n'
            &&& s.subrange(e + 1, s.len() as int) == messages_text(a.messages)
        }),
{
    reveal(network_ast_text);
    let n = s.len() as int;
    let vt = version_text(a.version);
    let nt = new_symbols_text(a.new_symbols);
    let bt = bit_timing_line(a.bit_timing);
    let dt = nodes_text(a.nodes);
    let mt = messages_text(a.messages);
    let e = vt.len() + 3 + nt.len() + bt.len() + dt.len() as int;
    assert(s =~= (vt + seq!['\n', '\n'] + nt + seq!['\n'] + bt + dt) + seq!['\n'] + mt);
    assert(s[e] == '\n');
    assert(s.subrange(e + 1, n) =~= mt);
}

/// Writing a file and parsing the text gives the same file back, with
/// nothing left over, whenever the file is writable.
#[verifier::spinoff_prover]
#[verifier::rlimit(80)]
pub proof fn lemma_network_roundtrip(a: SpecNetworkAst)
    requires
        network_is_writable(a),
    ensures
        spec_dbc_value(network_ast_text(a)) == Ok::<_, DbcParseError>((Seq::<char>::empty(), a)),
{
    let s = network_ast_text(a);
    let n = s.len() as int;
    let e = version_text(a.version).len() + 3 + new_symbols_text(a.new_symbols).len()
        + bit_timing_line(a.bit_timing).len() + nodes_text(a.nodes).len() as int;
    lemma_front_parse(s, a);
    lemma_middle_parse(s, a);
    lemma_back_layout(s, a);
    lemma_body_parse(s, e, a.messages);
    assert(s.subrange(0, n) =~= s);
    assert(s.subrange(n, n) =~= Seq::<char>::empty());
    assert(a.signal_value_descriptions =~= Seq::<SpecSignalValueDescriptions>::empty());
    assert(a.env_var_value_descriptions =~= Seq::<SpecEnvironmentVariableValueDescriptions>::empty());
}

fn parse_body_at(v: &Vec<char>, p: usize) -> (r: (
    Option<Vec<ValueTable>>,
    Vec<Message>,
    Vec<SignalValueDescriptions>,
    Vec<EnvironmentVariableValueDescriptions>,
    usize,
))
    requires
        p <= v@.len(),
    ensures
        parse_body(v@, p as int) == (
            match r.0 {
                Some(ts) => Some(value_tables_view(ts@)),
                None => None,
            },
            messages_view(r.1@),
            signal_value_descriptions_view(r.2@),
            env_var_value_descriptions_view(r.3@),
            r.4 as int,
        ),
        r.4 <= v@.len(),
{
    let (tables, a) = parser_value_tables(v, scan_multispace(v, p));
    let (messages, b) = parse_message_list_at(v, scan_multispace(v, a));
    let (signal_vds, c) = parse_signal_value_descriptions_list_at(v, scan_multispace(v, b));
    let (env_vds, d) = parse_env_var_value_descriptions_list_at(v, scan_multispace(v, c));
    (tables, messages, signal_vds, env_vds, scan_multispace(v, d))
}

fn parse_network_at_pos(v: &Vec<char>) -> (r: Result<(NetworkAst, usize), DbcParseError>)
    ensures
        match r {
            Ok((a, j)) => parse_network_at(v@) == Ok::<_, DbcParseError>((a@, j as int)) && j
                <= v@.len(),
            Err(e) => parse_network_at(v@) == Err::<(SpecNetworkAst, int), _>(e),
        },
{
    let (version, a) = match parse_version_at_pos(v, scan_multispace(v, 0)) {
        Some(x) => x,
        None => return Err(DbcParseError::BadVersion),
    };
    let (new_symbols, b) = match parse_new_symbols_at_pos(v, scan_multispace(v, a)) {
        Some(x) => x,
        None => return Err(DbcParseError::BadNames),
    };
    let c = scan_multispace(v, b);
    let (bit_timing, d) = match parse_bit_timing_at_pos(v, c) {
        Some((bt, e)) => (Some(bt), scan_multispace(v, e)),
        None => (None, c),
    };
    let (nodes, e) = match parse_nodes_at_pos(v, d) {
        Some(x) => x,
        None => return Err(DbcParseError::BadCanNodes),
    };
    let (value_tables, messages, signal_value_descriptions, env_var_value_descriptions, f) =
        parse_body_at(v, e);
    Ok(
        (
            NetworkAst {
                version,
                new_symbols,
                bit_timing,
                nodes,
                value_tables,
                messages,
                signal_value_descriptions,
                env_var_value_descriptions,
            },
            f,
        ),
    )
}

fn without_leading_space_exec(input: &str) -> (v: Vec<char>)
    ensures
        v@ == without_leading_space(input@),
{
    let cs = chars_of(input);
    let p = scan_multispace(&cs, 0);
    chars_from(&cs, p)
}

/// Parses a DBC file at the start of `input`; returns the rest of the input
/// and the file, or the error of the first mandatory section that is
/// missing or malformed.
pub fn dbc_value(input: &str) -> (r: Result<(String, NetworkAst), DbcParseError>)
    ensures
        match r {
            Ok((rest, a)) => spec_dbc_value(input@) == Ok::<_, DbcParseError>((rest@, a@)),
            Err(e) => spec_dbc_value(input@) == Err::<(Seq<char>, SpecNetworkAst), _>(e),
        },
{
    let v = without_leading_space_exec(input);
    match parse_network_at_pos(&v) {
        Ok((a, j)) => Ok((string_from_range(&v, j, v.len()), a)),
        Err(e) => Err(e),
    }
}

/// Parses a whole DBC file. Where input is left after the file, the error is
/// the debug message `Eof:\t<rest>\n`, with the rest of the input in the form
/// that `Debug` gives a string.
pub fn parse_dbc(input: &str) -> (r: Result<NetworkAst, DbcParseError>)
    ensures
        match r {
            Ok(a) => spec_dbc_value(input@) == Ok::<_, DbcParseError>((Seq::<char>::empty(), a@)),
            Err(e) => match spec_dbc_value(input@) {
                Ok((rest, _)) => rest.len() > 0 && is_debug_msg(
                    e,
                    located_text("Eof"@, str_debug_text(rest)),
                ) && is_one_line_msg(e),
                Err(e2) => e == e2,
            },
        },
{
    let v = without_leading_space_exec(input);
    match parse_network_at_pos(&v) {
        Ok((a, j)) => {
            if j == v.len() {
                assert(v@.subrange(j as int, v@.len() as int) =~= Seq::<char>::empty());
                Ok(a)
            } else {
                let rest = string_from_range(&v, j, v.len());
                let mut label = String::new();
                crate::text::push_str(&mut label, "Eof");
                proof {
                    reveal_strlit("Eof");
                    assert("Eof"@ =~= seq!['E', 'o', 'f']);
                }
                Err(located_message(label, str_debug(rest.as_str()).as_str()))
            }
        },
        Err(e) => Err(e),
    }
}

impl NetworkAst {
    /// Appends the written form of the file.
    pub fn write_to(&self, out: &mut String)
        ensures
            final(out)@ == old(out)@ + network_ast_text(self@),
    {
        self.version.write_to(out);
        push_char(out, '\n');
        push_char(out, '\n');
        self.new_symbols.write_to(out);
        push_char(out, '\n');
        match &self.bit_timing {
            Some(bt) => {
                bt.write_to(out);
                push_char(out, '\n');
            },
            None => {},
        }
        self.nodes.write_to(out);
        push_char(out, '\n');
        self.write_messages(out);
        reveal(network_ast_text);
        assert(out@ =~= old(out)@ + network_ast_text(self@));
    }

    #[verifier::spinoff_prover]
    fn write_messages(&self, out: &mut String)
        ensures
            final(out)@ == old(out)@ + messages_text(messages_view(self.messages@)),
    {
        let ghost p3 = out@;
        let ghost texts = messages_view(self.messages@).map_values(
            |m: SpecMessage| message_text(m) + seq!['\n'],
        );
        let n = self.messages.len();
        assert(texts.take(0) =~= Seq::<Seq<char>>::empty());
        for k in 0..n
            invariant
                n == self.messages@.len(),
                texts == messages_view(self.messages@).map_values(
                    |m: SpecMessage| message_text(m) + seq!['\n'],
                ),
                out@ == p3 + join_prefixed(texts.take(k as int), Seq::empty()),
        {
            self.messages[k].write_to(out);
            push_char(out, '\n');
            proof {
                let t = texts.take(k + 1);
                assert(t.drop_last() =~= texts.take(k as int));
                assert(t.last() == message_text(self.messages@[k as int]@) + seq!['\n']);
            }
            assert(out@ =~= p3 + join_prefixed(texts.take(k + 1), Seq::empty()));
        }
        assert(texts.take(n as int) =~= texts);
    }

    /// The written form of the file.
    pub fn to_string(&self) -> (s: String)
        ensures
            s@ == network_ast_text(self@),
    {
        let mut s = String::new();
        self.write_to(&mut s);
        s
    }
}

} // verus!
