//! Value tables: `VAL_TABLE_ name [value_descriptions];`, e.g.
//! `VAL_TABLE_ ABS_fault_info 2 "active faults stored" 1 "inactive faults stored" ;`.

use vstd::prelude::*;
use crate::text::string_from_range;
use super::common_parsers::{
    has_tag, is_multispace, lemma_run_end_through, parse_name, scan_multispace, scan_name,
    scan_space, skip_multispace, skip_space, tag_at, CharClass,
};
use super::value_descriptions::{
    lemma_descriptions_end_bounds, parse_descriptions_to_line_end, parse_descriptions_to_line_end_at,
    SpecValueDescriptionItem,
    ValueDescriptions,
};

verus! {

#[derive(Clone, Debug, PartialEq)]
pub struct ValueTable {
    pub name: String,
    pub value_descriptions: ValueDescriptions,
}

/// A value table as a mathematical value.
pub struct SpecValueTable {
    pub name: Seq<char>,
    pub value_descriptions: Seq<SpecValueDescriptionItem>,
}

impl View for ValueTable {
    type V = SpecValueTable;

    open spec fn view(&self) -> SpecValueTable {
        SpecValueTable { name: self.name@, value_descriptions: self.value_descriptions@ }
    }
}

pub open spec fn value_table_keyword() -> Seq<char> {
    seq!['V', 'A', 'L', '_', 'T', 'A', 'B', 'L', 'E', '_']
}

/// The value table that starts at `i`: `VAL_TABLE_`, spaces, the table's
/// name, the value descriptions and `;`, then any number of line endings.
pub open spec fn parse_value_table_at(s: Seq<char>, i: int) -> Option<(SpecValueTable, int)> {
    let a = skip_space(s, i + 10);
    if !has_tag(s, i, value_table_keyword()) {
        None
    } else {
        match parse_name(s, a) {
            None => None,
            Some(b) => match parse_descriptions_to_line_end(s, b) {
                None => None,
                Some((items, c)) => Some(
                    (SpecValueTable { name: s.subrange(a, b), value_descriptions: items }, c),
                ),
            },
        }
    }
}

/// The value tables from `j` on, each with the white space around it; the
/// tables and the position after the last.
pub open spec fn parse_value_table_list(s: Seq<char>, j: int) -> (Seq<SpecValueTable>, int)
    decreases s.len() - j,
{
    match parse_value_table_at(s, skip_multispace(s, j)) {
        Some((t, e)) => {
            let e2 = skip_multispace(s, e);
            if j < e2 <= s.len() {
                let (rest, m) = parse_value_table_list(s, e2);
                (seq![t] + rest, m)
            } else {
                (Seq::empty(), j)
            }
        },
        None => (Seq::empty(), j),
    }
}

/// The value tables from `i` on: none where not even one follows.
pub open spec fn parse_value_tables_at(s: Seq<char>, i: int) -> (Option<Seq<SpecValueTable>>, int) {
    let (ts, m) = parse_value_table_list(s, i);
    if ts.len() == 0 {
        (None, i)
    } else {
        (Some(ts), m)
    }
}

/// A value table read at `i` ends after `i`, within the input.
pub proof fn lemma_value_table_end_bounds(s: Seq<char>, i: int)
    requires
        0 <= i,
    ensures
        parse_value_table_at(s, i) matches Some((_, e)) ==> i < e <= s.len(),
{
    broadcast use super::common_parsers::group_position_bounds;

    if parse_value_table_at(s, i) is Some {
        let b = parse_name(s, skip_space(s, i + 10)).unwrap();
        lemma_descriptions_end_bounds(s, b);
    }
}

/// White space before the value tables (spaces, tabs, `\r` and `\n`, in any
/// mix) does not change which tables are read.
pub proof fn lemma_value_table_list_skips_white_space(s: Seq<char>, j: int, k: int)
    requires
        0 <= j <= k <= s.len(),
        forall|m: int| j <= m < k ==> is_multispace(#[trigger] s[m]),
    ensures
        parse_value_table_list(s, j).0 == parse_value_table_list(s, k).0,
        parse_value_table_list(s, k).0.len() > 0 ==> parse_value_table_list(s, j).1
            == parse_value_table_list(s, k).1,
{
    broadcast use super::common_parsers::group_position_bounds;

    lemma_run_end_through(s, j, k, CharClass::Multispace);
    lemma_value_table_end_bounds(s, skip_multispace(s, k));
}

/// The value tables read from `i` are none exactly where no `VAL_TABLE_`
/// line stands there (after white space); where one does, they are that
/// table, then the tables read after it: one line gives a list of one table.
pub proof fn lemma_value_tables_read_first(s: Seq<char>, i: int)
    requires
        0 <= i <= s.len(),
    ensures
        parse_value_table_at(s, skip_multispace(s, i)) is None ==> parse_value_tables_at(s, i) == (
            None::<Seq<SpecValueTable>>,
            i,
        ),
        ({
            let (t, e) = parse_value_table_at(s, skip_multispace(s, i)).unwrap();
            let (rest, m) = parse_value_table_list(s, skip_multispace(s, e));
            parse_value_table_at(s, skip_multispace(s, i)) is Some ==> parse_value_tables_at(s, i)
                == (Some(seq![t] + rest), m)
        }),
{
    broadcast use super::common_parsers::group_position_bounds;

    lemma_value_table_end_bounds(s, skip_multispace(s, i));
}

/// The views of a list of value tables.
pub open spec fn value_tables_view(ts: Seq<ValueTable>) -> Seq<SpecValueTable> {
    ts.map_values(|t: ValueTable| t@)
}

fn parse_value_table_at_pos(v: &Vec<char>, i: usize) -> (r: Option<(ValueTable, usize)>)
    requires
        i <= v@.len(),
    ensures
        match r {
            Some((x, j)) => parse_value_table_at(v@, i as int) == Some((x@, j as int)) && i < j
                <= v@.len(),
            None => parse_value_table_at(v@, i as int) is None,
        },
{
    let keyword: [char; 10] = ['V', 'A', 'L', '_', 'T', 'A', 'B', 'L', 'E', '_'];
    assert(keyword@ =~= value_table_keyword());
    if !tag_at(v, i, &keyword) {
        return None;
    }
    let a = scan_space(v, i + 10);
    let b = match scan_name(v, a) {
        Some(b) => b,
        None => return None,
    };
    match parse_descriptions_to_line_end_at(v, b) {
        Some((value_descriptions, c)) => Some(
            (ValueTable { name: string_from_range(v, a, b), value_descriptions }, c),
        ),
        None => None,
    }
}

/// Parses the value tables that follow one another from `i`; returns none
/// where not even one follows, and the position after the last.
pub fn parser_value_tables(v: &Vec<char>, i: usize) -> (r: (Option<Vec<ValueTable>>, usize))
    requires
        i <= v@.len(),
    ensures
        parse_value_tables_at(v@, i as int) == (
            match r.0 {
                Some(ts) => Some(value_tables_view(ts@)),
                None => None,
            },
            r.1 as int,
        ),
        i <= r.1 <= v@.len(),
{
    let mut tables: Vec<ValueTable> = Vec::new();
    let mut j = i;
    loop
        invariant
            i <= j <= v@.len(),
            parse_value_table_list(v@, i as int) == (
                value_tables_view(tables@) + parse_value_table_list(v@, j as int).0,
                parse_value_table_list(v@, j as int).1,
            ),
            tables@.len() == 0 ==> j == i,
        decreases v@.len() - j,
    {
        let k = scan_multispace(v, j);
        match parse_value_table_at_pos(v, k) {
            Some((t, e)) => {
                let e2 = scan_multispace(v, e);
                let ghost before = value_tables_view(tables@);
                let ghost here = t@;
                tables.push(t);
                assert(value_tables_view(tables@) =~= before.push(here));
                assert(before + parse_value_table_list(v@, j as int).0 =~= before.push(here)
                    + parse_value_table_list(v@, e2 as int).0);
                j = e2;
            },
            None => {
                assert(parse_value_table_list(v@, j as int) == (Seq::<SpecValueTable>::empty(), j as int));
                assert(value_tables_view(tables@) + Seq::empty() =~= value_tables_view(tables@));
                if tables.len() == 0 {
                    return (None, i);
                } else {
                    return (Some(tables), j);
                }
            },
        }
    }
}

} // verus!
