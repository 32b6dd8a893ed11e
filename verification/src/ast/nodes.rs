//! The nodes of the network: `BU_:` followed by their names on the same
//! line, e.g. `BU_: ABS DRS_MM5_10`.

use vstd::prelude::*;
use crate::text::{
    join_prefixed, lemma_join_prefixed_first, push_prefixed, push_slice, string_from_range,
    strings_view,
};
use super::common_parsers::{
    char_at, char_is, has_tag, is_dbc_name, lemma_parse_name_text, lemma_run_end_at, lemma_sub,
    parse_name, scan_name, scan_space, skip_space, tag_at, CharClass,
};

verus! {

#[derive(Clone, Debug, PartialEq)]
pub struct Nodes(pub Vec<String>);

impl View for Nodes {
    type V = Seq<Seq<char>>;

    open spec fn view(&self) -> Seq<Seq<char>> {
        strings_view(self.0@)
    }
}

pub open spec fn nodes_keyword() -> Seq<char> {
    seq!['B', 'U', '_']
}

/// The node names from `j` on, each after spaces; the names and the end of
/// the last.
pub open spec fn parse_node_names(s: Seq<char>, j: int) -> (Seq<Seq<char>>, int)
    decreases s.len() - j,
{
    let k = skip_space(s, j);
    match parse_name(s, k) {
        Some(e) => if j < e <= s.len() {
            let (rest, m) = parse_node_names(s, e);
            (seq![s.subrange(k, e)] + rest, m)
        } else {
            (Seq::empty(), j)
        },
        None => (Seq::empty(), j),
    }
}

/// Every name that stands after spaces is read, the last of the input
/// included: the names read from `j` are the name that stands after the
/// spaces at `j`, then the names read after it.
pub proof fn lemma_node_names_read_name(s: Seq<char>, j: int)
    requires
        0 <= j <= s.len(),
        parse_name(s, skip_space(s, j)) is Some,
    ensures
        ({
            let k = skip_space(s, j);
            let e = parse_name(s, k).unwrap();
            parse_node_names(s, j) == (
                seq![s.subrange(k, e)] + parse_node_names(s, e).0,
                parse_node_names(s, e).1,
            )
        }),
{
    broadcast use super::common_parsers::group_position_bounds;

}

/// The section that starts at `i`: `BU_`, spaces, `:` and the node names.
pub open spec fn parse_nodes_at(s: Seq<char>, i: int) -> Option<(Seq<Seq<char>>, int)> {
    let a = skip_space(s, i + 3);
    if has_tag(s, i, nodes_keyword()) && char_at(s, a, ':') {
        Some(parse_node_names(s, a + 1))
    } else {
        None
    }
}

/// How the section is written: `BU_:`, then each name after a space.
pub open spec fn nodes_text(ns: Seq<Seq<char>>) -> Seq<char> {
    nodes_keyword() + seq![':'] + join_prefixed(ns, seq![' '])
}

proof fn lemma_node_names_parse(s: Seq<char>, q: int, ns: Seq<Seq<char>>)
    requires
        0 <= q,
        q + join_prefixed(ns, seq![' ']).len() <= s.len(),
        s.subrange(q, q + join_prefixed(ns, seq![' ']).len()) == join_prefixed(ns, seq![' ']),
        forall|k: int| 0 <= k < ns.len() ==> is_dbc_name(#[trigger] ns[k]),
        q + join_prefixed(ns, seq![' ']).len() < s.len() ==> s[q + join_prefixed(
            ns,
            seq![' '],
        ).len()] == '\n',
    ensures
        parse_node_names(s, q) == (ns, q + join_prefixed(ns, seq![' ']).len()),
    decreases ns.len(),
{
    let t = join_prefixed(ns, seq![' ']);
    let l = t.len() as int;
    if ns.len() == 0 {
        lemma_run_end_at(s, q, q, CharClass::Space);
    } else {
        lemma_join_prefixed_first(ns, seq![' ']);
        let n0 = ns[0];
        let rest = ns.drop_first();
        let tr = join_prefixed(rest, seq![' ']);
        let ln = n0.len() as int;
        let e = q + 1 + ln;
        assert(is_dbc_name(n0));
        lemma_sub(s, q, t, 0, l);
        assert(t[0] == ' ');
        assert(t[1] == n0[0]);
        lemma_run_end_at(s, q, q + 1, CharClass::Space);
        assert(t.subrange(1, 1 + ln) =~= n0);
        lemma_sub(s, q, t, 1, 1 + ln);
        assert(t.subrange(1 + ln, l) =~= tr);
        lemma_sub(s, q, t, 1 + ln, l);
        if rest.len() > 0 {
            lemma_join_prefixed_first(rest, seq![' ']);
            assert(tr[0] == ' ');
            assert(s[e] == tr[0]);
        }
        lemma_parse_name_text(s, q + 1, n0);
        assert forall|k: int| 0 <= k < rest.len() implies is_dbc_name(#[trigger] rest[k]) by {
            assert(rest[k] == ns[k + 1]);
        }
        lemma_node_names_parse(s, e, rest);
        assert(seq![n0] + rest =~= ns);
    }
}

/// The written nodes section, followed by a line break or the end of the
/// input, reads back as the same nodes, whenever every node's name is a name
/// of the format.
pub proof fn lemma_nodes_text_parse(s: Seq<char>, p: int, ns: Seq<Seq<char>>)
    requires
        0 <= p,
        p + nodes_text(ns).len() <= s.len(),
        s.subrange(p, p + nodes_text(ns).len()) == nodes_text(ns),
        forall|k: int| 0 <= k < ns.len() ==> is_dbc_name(#[trigger] ns[k]),
        p + nodes_text(ns).len() < s.len() ==> s[p + nodes_text(ns).len()] == '\n',
    ensures
        parse_nodes_at(s, p) == Some((ns, p + nodes_text(ns).len())),
{
    let t = nodes_text(ns);
    let l = t.len() as int;
    lemma_sub(s, p, t, 0, l);
    assert(t.subrange(0, 3) =~= nodes_keyword());
    lemma_sub(s, p, t, 0, 3);
    assert(t[3] == ':');
    lemma_run_end_at(s, p + 3, p + 3, CharClass::Space);
    assert(t.subrange(4, l) =~= join_prefixed(ns, seq![' ']));
    lemma_sub(s, p, t, 4, l);
    lemma_node_names_parse(s, p + 4, ns);
}

pub fn parse_nodes_at_pos(v: &Vec<char>, i: usize) -> (r: Option<(Nodes, usize)>)
    requires
        i <= v@.len(),
    ensures
        match r {
            Some((x, j)) => parse_nodes_at(v@, i as int) == Some((x@, j as int)) && i < j
                <= v@.len(),
            None => parse_nodes_at(v@, i as int) is None,
        },
{
    let keyword: [char; 3] = ['B', 'U', '_'];
    assert(keyword@ =~= nodes_keyword());
    if !tag_at(v, i, &keyword) {
        return None;
    }
    let a = scan_space(v, i + 3);
    if !char_is(v, a, ':') {
        return None;
    }
    let mut names: Vec<String> = Vec::new();
    let mut j = a + 1;
    loop
        invariant
            i < a + 1 <= j <= v@.len(),
            parse_nodes_at(v@, i as int) == Some(parse_node_names(v@, (a + 1) as int)),
            parse_node_names(v@, (a + 1) as int) == (
                strings_view(names@) + parse_node_names(v@, j as int).0,
                parse_node_names(v@, j as int).1,
            ),
        decreases v@.len() - j,
    {
        let k = scan_space(v, j);
        match scan_name(v, k) {
            Some(e) => {
                let ghost before = strings_view(names@);
                let name = string_from_range(v, k, e);
                let ghost here = name@;
                names.push(name);
                assert(strings_view(names@) =~= before.push(here));
                assert(before + parse_node_names(v@, j as int).0 =~= before.push(here)
                    + parse_node_names(v@, e as int).0);
                j = e;
            },
            None => {
                assert(parse_node_names(v@, j as int) == (Seq::<Seq<char>>::empty(), j as int));
                assert(strings_view(names@) + Seq::empty() =~= strings_view(names@));
                return Some((Nodes(names), j));
            },
        }
    }
}

impl Nodes {
    /// Appends the section.
    pub fn write_to(&self, out: &mut String)
        ensures
            final(out)@ == old(out)@ + nodes_text(self@),
    {
        let head: [char; 4] = ['B', 'U', '_', ':'];
        push_slice(out, &head);
        assert(head@ =~= nodes_keyword() + seq![':']);
        push_prefixed(out, &self.0, 0, " ");
        proof {
            reveal_strlit(" ");
            assert(" "@ =~= seq![' ']);
        }
        assert(strings_view(self.0@).skip(0) =~= self@);
        assert(out@ =~= old(out)@ + nodes_text(self@));
    }

    /// The section, e.g. `BU_: ABS DRS_MM5_10`.
    pub fn to_string(&self) -> (s: String)
        ensures
            s@ == nodes_text(self@),
    {
        let mut s = String::new();
        self.write_to(&mut s);
        s
    }
}

} // verus!
