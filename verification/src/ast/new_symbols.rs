//! The new-symbols section: `NS_:` followed by the symbols the file uses,
//! one per line, e.g. `NS_:\n    BS_\n    CM_`.

use vstd::prelude::*;
use crate::text::{
    join_prefixed, lemma_join_prefixed_first, push_prefixed, push_slice, string_from_range,
    strings_view,
};
use super::common_parsers::{
    char_at, char_is, has_tag, ident_end, is_c_identifier, is_multispace, lemma_ident_end_text,
    lemma_run_end_at, lemma_run_end_through, lemma_sub, scan_ident, scan_multispace, scan_space, skip_multispace, skip_space, tag_at,
    CharClass,
};

verus! {

#[derive(Clone, Debug, PartialEq)]
pub struct NewSymbols(pub Vec<String>);

impl View for NewSymbols {
    type V = Seq<Seq<char>>;

    open spec fn view(&self) -> Seq<Seq<char>> {
        strings_view(self.0@)
    }
}

pub open spec fn new_symbols_keyword() -> Seq<char> {
    seq!['N', 'S', '_']
}

/// The symbols from `j` on: each is an identifier after white space that is
/// not followed by a colon (which would make it the start of the next
/// section); the symbols and the end of the last.
pub open spec fn parse_symbols(s: Seq<char>, j: int) -> (Seq<Seq<char>>, int)
    decreases s.len() - j,
{
    let k = skip_multispace(s, j);
    let e = ident_end(s, k);
    if j < e <= s.len() && k < e && !char_at(s, skip_space(s, e), ':') {
        let (rest, m) = parse_symbols(s, e);
        (seq![s.subrange(k, e)] + rest, m)
    } else {
        (Seq::empty(), j)
    }
}

/// The section that starts at `i`: `NS_`, spaces, `:` and the symbols.
pub open spec fn parse_new_symbols_at(s: Seq<char>, i: int) -> Option<(Seq<Seq<char>>, int)> {
    let a = skip_space(s, i + 3);
    if has_tag(s, i, new_symbols_keyword()) && char_at(s, a, ':') {
        Some(parse_symbols(s, a + 1))
    } else {
        None
    }
}

/// The symbols read do not depend on the white space before them: any run
/// of spaces, tabs and line breaks (spaces before a line break included)
/// gives the same symbols as none.
pub proof fn lemma_symbols_skip_white_space(s: Seq<char>, j: int, k: int)
    requires
        0 <= j <= k <= s.len(),
        forall|m: int| j <= m < k ==> is_multispace(#[trigger] s[m]),
    ensures
        parse_symbols(s, j).0 == parse_symbols(s, k).0,
        parse_symbols(s, k).0.len() > 0 ==> parse_symbols(s, j).1 == parse_symbols(s, k).1,
{
    broadcast use super::common_parsers::group_position_bounds;

    lemma_run_end_through(s, j, k, CharClass::Multispace);
}

/// The symbols of the section are the symbols that stand after `NS_`,
/// spaces, `:` and any white space.
pub proof fn lemma_new_symbols_after_white_space(s: Seq<char>, i: int, k: int)
    requires
        0 <= i,
        parse_new_symbols_at(s, i) is Some,
        skip_space(s, i + 3) + 1 <= k <= s.len(),
        forall|m: int| skip_space(s, i + 3) + 1 <= m < k ==> is_multispace(#[trigger] s[m]),
    ensures
        parse_new_symbols_at(s, i).unwrap().0 == parse_symbols(s, k).0,
{
    lemma_symbols_skip_white_space(s, skip_space(s, i + 3) + 1, k);
}

/// How the section is written: `NS_:`, then each symbol on a line of its
/// own, indented by four spaces.
pub open spec fn new_symbols_text(syms: Seq<Seq<char>>) -> Seq<char> {
    new_symbols_keyword() + seq![':'] + join_prefixed(syms, seq!['\n', ' ', ' ', ' ', ' '])
}

pub open spec fn symbol_separator() -> Seq<char> {
    seq!['\n', ' ', ' ', ' ', ' ']
}

proof fn lemma_symbols_parse(s: Seq<char>, q: int, syms: Seq<Seq<char>>)
    requires
        0 <= q,
        q + join_prefixed(syms, symbol_separator()).len() < s.len(),
        s.subrange(q, q + join_prefixed(syms, symbol_separator()).len()) == join_prefixed(
            syms,
            symbol_separator(),
        ),
        forall|k: int| 0 <= k < syms.len() ==> is_c_identifier(#[trigger] syms[k]),
        s[q + join_prefixed(syms, symbol_separator()).len()] == '\n',
        parse_symbols(s, q + join_prefixed(syms, symbol_separator()).len()) == (
            Seq::<Seq<char>>::empty(),
            q + join_prefixed(syms, symbol_separator()).len(),
        ),
    ensures
        parse_symbols(s, q) == (syms, q + join_prefixed(syms, symbol_separator()).len()),
    decreases syms.len(),
{
    let sep = symbol_separator();
    let t = join_prefixed(syms, sep);
    let l = t.len() as int;
    if syms.len() > 0 {
        lemma_join_prefixed_first(syms, sep);
        let w = syms[0];
        let lw = w.len() as int;
        let rest = syms.drop_first();
        let tr = join_prefixed(rest, sep);
        let e = q + 5 + lw;
        assert(is_c_identifier(w));
        lemma_sub(s, q, t, 0, l);
        assert(t.subrange(0, 5) =~= sep);
        assert(t[5] == w[0]);
        lemma_run_end_at(s, q, q + 5, CharClass::Multispace);
        assert(t.subrange(5, 5 + lw) =~= w);
        lemma_sub(s, q, t, 5, 5 + lw);
        assert(t.subrange(5 + lw, l) =~= tr);
        lemma_sub(s, q, t, 5 + lw, l);
        if rest.len() > 0 {
            lemma_join_prefixed_first(rest, sep);
            assert(s[e] == tr[0]);
        }
        assert(s[e] == '\n');
        lemma_ident_end_text(s, q + 5, w);
        lemma_run_end_at(s, e, e, CharClass::Space);
        assert forall|k: int| 0 <= k < rest.len() implies is_c_identifier(#[trigger] rest[k]) by {
            assert(rest[k] == syms[k + 1]);
        }
        lemma_symbols_parse(s, e, rest);
        assert(seq![w] + rest =~= syms);
    }
}

/// The written new-symbols section, followed by a line break and a section
/// that starts with a keyword and a colon, reads back as the same symbols,
/// whenever every symbol is a C identifier.
pub proof fn lemma_new_symbols_text_parse(s: Seq<char>, p: int, syms: Seq<Seq<char>>)
    requires
        0 <= p,
        p + new_symbols_text(syms).len() < s.len(),
        s.subrange(p, p + new_symbols_text(syms).len()) == new_symbols_text(syms),
        forall|k: int| 0 <= k < syms.len() ==> is_c_identifier(#[trigger] syms[k]),
        s[p + new_symbols_text(syms).len()] == '\n',
        parse_symbols(s, p + new_symbols_text(syms).len()) == (
            Seq::<Seq<char>>::empty(),
            p + new_symbols_text(syms).len(),
        ),
    ensures
        parse_new_symbols_at(s, p) == Some((syms, p + new_symbols_text(syms).len())),
{
    let t = new_symbols_text(syms);
    let l = t.len() as int;
    lemma_sub(s, p, t, 0, l);
    assert(t.subrange(0, 3) =~= new_symbols_keyword());
    lemma_sub(s, p, t, 0, 3);
    assert(t[3] == ':');
    lemma_run_end_at(s, p + 3, p + 3, CharClass::Space);
    assert(t.subrange(4, l) =~= join_prefixed(syms, symbol_separator()));
    lemma_sub(s, p, t, 4, l);
    lemma_symbols_parse(s, p + 4, syms);
}

pub fn parse_new_symbols_at_pos(v: &Vec<char>, i: usize) -> (r: Option<(NewSymbols, usize)>)
    requires
        i <= v@.len(),
    ensures
        match r {
            Some((x, j)) => parse_new_symbols_at(v@, i as int) == Some((x@, j as int)) && i < j
                <= v@.len(),
            None => parse_new_symbols_at(v@, i as int) is None,
        },
{
    let keyword: [char; 3] = ['N', 'S', '_'];
    assert(keyword@ =~= new_symbols_keyword());
    if !tag_at(v, i, &keyword) {
        return None;
    }
    let a = scan_space(v, i + 3);
    if !char_is(v, a, ':') {
        return None;
    }
    let mut syms: Vec<String> = Vec::new();
    let mut j = a + 1;
    loop
        invariant
            i < a + 1 <= j <= v@.len(),
            parse_new_symbols_at(v@, i as int) == Some(parse_symbols(v@, (a + 1) as int)),
            parse_symbols(v@, (a + 1) as int) == (
                strings_view(syms@) + parse_symbols(v@, j as int).0,
                parse_symbols(v@, j as int).1,
            ),
        decreases v@.len() - j,
    {
        let k = scan_multispace(v, j);
        let e = scan_ident(v, k);
        let after = scan_space(v, e);
        if k < e && !char_is(v, after, ':') {
            let ghost before = strings_view(syms@);
            let name = string_from_range(v, k, e);
            let ghost here = name@;
            syms.push(name);
            assert(strings_view(syms@) =~= before.push(here));
            assert(before + parse_symbols(v@, j as int).0 =~= before.push(here) + parse_symbols(
                v@,
                e as int,
            ).0);
            j = e;
        } else {
            assert(parse_symbols(v@, j as int) == (Seq::<Seq<char>>::empty(), j as int));
            assert(strings_view(syms@) + Seq::empty() =~= strings_view(syms@));
            return Some((NewSymbols(syms), j));
        }
    }
}

impl NewSymbols {
    /// Appends the section.
    pub fn write_to(&self, out: &mut String)
        ensures
            final(out)@ == old(out)@ + new_symbols_text(self@),
    {
        let head: [char; 4] = ['N', 'S', '_', ':'];
        push_slice(out, &head);
        assert(head@ =~= new_symbols_keyword() + seq![':']);
        push_prefixed(out, &self.0, 0, "\n    ");
        proof {
            reveal_strlit("\n    ");
            assert("\n    "@ =~= seq!['\n', ' ', ' ', ' ', ' ']);
        }
        assert(strings_view(self.0@).skip(0) =~= self@);
        assert(out@ =~= old(out)@ + new_symbols_text(self@));
    }

    /// The section, e.g. `NS_:\n    BS_\n    CM_`.
    pub fn to_string(&self) -> (s: String)
        ensures
            s@ == new_symbols_text(self@),
    {
        let mut s = String::new();
        self.write_to(&mut s);
        s
    }
}

} // verus!
