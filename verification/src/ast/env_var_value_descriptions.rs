//! Value descriptions of an environment variable:
//! `VAL_ env_var_name [value_descriptions];`, e.g.
//! `VAL_ RWEnvVar_wData 2 "Value2" 1 "Value1" 0 "Value0" ;`.

use vstd::prelude::*;
use crate::text::{chars_from, chars_of, push_char, push_range, string_from_range};
use super::common_parsers::{
    is_multispace, lemma_leading_space_dropped, lemma_run_end_through, without_leading_space,
    has_tag, is_dbc_name, lemma_parse_name_text, lemma_run_end_at, parse_name, scan_multispace,
    scan_name, scan_space, skip_multispace, skip_space, tag_at, CharClass,
};
use super::error::DbcParseError;
use super::signal_value_descriptions::val_keyword;
use super::value_descriptions::{
    items_are_quotable, items_text, lemma_descriptions_end_bounds, lemma_descriptions_line_roundtrip,
    parse_descriptions_to_line_end, parse_descriptions_to_line_end_at, SpecValueDescriptionItem,
    ValueDescriptions,
};

verus! {

#[derive(Clone, Debug, PartialEq)]
pub struct EnvironmentVariableValueDescriptions {
    pub env_var_name: String,
    pub value_descriptions: ValueDescriptions,
}

/// The value descriptions of an environment variable as a mathematical value.
pub struct SpecEnvironmentVariableValueDescriptions {
    pub env_var_name: Seq<char>,
    pub value_descriptions: Seq<SpecValueDescriptionItem>,
}

impl View for EnvironmentVariableValueDescriptions {
    type V = SpecEnvironmentVariableValueDescriptions;

    open spec fn view(&self) -> SpecEnvironmentVariableValueDescriptions {
        SpecEnvironmentVariableValueDescriptions {
            env_var_name: self.env_var_name@,
            value_descriptions: self.value_descriptions@,
        }
    }
}

/// The `VAL_` line of an environment variable that starts at `i`, and the
/// position after it: white space, `VAL_`, white space, the variable's name,
/// the value descriptions and `;`, separated by spaces and tabs, then any
/// number of line endings.
pub open spec fn parse_env_var_value_descriptions_at(s: Seq<char>, i: int) -> Option<
    (SpecEnvironmentVariableValueDescriptions, int),
> {
    let a = skip_multispace(s, i);
    let b = skip_space(s, skip_multispace(s, a + 4));
    if !has_tag(s, a, val_keyword()) {
        None
    } else {
        match parse_name(s, b) {
            None => None,
            Some(c) => match parse_descriptions_to_line_end(s, c) {
                None => None,
                Some((items, d)) => Some(
                    (
                        SpecEnvironmentVariableValueDescriptions {
                            env_var_name: s.subrange(b, c),
                            value_descriptions: items,
                        },
                        d,
                    ),
                ),
            },
        }
    }
}

/// What parsing the input `s` gives: the rest of the input and the value
/// descriptions.
pub open spec fn spec_parser_env_var_value_descriptions(s: Seq<char>) -> Option<
    (Seq<char>, SpecEnvironmentVariableValueDescriptions),
> {
    let u = without_leading_space(s);
    match parse_env_var_value_descriptions_at(u, 0) {
        Some((v, j)) => Some((u.subrange(j, u.len() as int), v)),
        None => None,
    }
}

/// White space (spaces, tabs, line breaks) written before the `VAL_` line of
/// an environment variable does not change what parsing gives.
pub proof fn lemma_env_var_value_descriptions_leading_space(w: Seq<char>, s: Seq<char>)
    requires
        forall|j: int| 0 <= j < w.len() ==> is_multispace(#[trigger] w[j]),
    ensures
        spec_parser_env_var_value_descriptions(w + s) == spec_parser_env_var_value_descriptions(s),
{
    lemma_leading_space_dropped(w, s);
}

/// How the value descriptions of an environment variable are written:
/// `VAL_ <name> <descriptions>;`.
pub open spec fn env_var_value_descriptions_text(v: SpecEnvironmentVariableValueDescriptions) -> Seq<
    char,
> {
    val_keyword() + seq![' '] + v.env_var_name + seq![' '] + items_text(v.value_descriptions)
        + seq![';']
}

/// Writing the value descriptions of an environment variable and parsing
/// the text gives them back with nothing left over, whenever the variable's
/// name is a name of the format and no description holds a double quote.
pub proof fn lemma_env_var_value_descriptions_roundtrip(v: SpecEnvironmentVariableValueDescriptions)
    requires
        is_dbc_name(v.env_var_name),
        items_are_quotable(v.value_descriptions),
    ensures
        spec_parser_env_var_value_descriptions(env_var_value_descriptions_text(v)) == Some(
            (Seq::<char>::empty(), v),
        ),
{
    let s = env_var_value_descriptions_text(v);
    let name = v.env_var_name;
    let items = v.value_descriptions;
    let ln = name.len() as int;
    assert(s =~= val_keyword() + seq![' '] + name + seq![' '] + items_text(items) + seq![';']);
    assert(s[0] == 'V');
    lemma_run_end_at(s, 0, 0, CharClass::Multispace);
    assert(s.subrange(0, 4) =~= val_keyword());
    assert(s[4] == ' ');
    assert(s[5] == name[0]);
    lemma_run_end_at(s, 4, 5, CharClass::Multispace);
    lemma_run_end_at(s, 5, 5, CharClass::Space);
    assert(s.subrange(5, 5 + ln) =~= name);
    assert(s[5 + ln] == ' ');
    lemma_parse_name_text(s, 5, name);
    assert(s.subrange(5 + ln, s.len() as int) =~= seq![' '] + items_text(items) + seq![';']);
    lemma_descriptions_line_roundtrip(s, 5 + ln, items);
    assert(s.subrange(s.len() as int, s.len() as int) =~= Seq::<char>::empty());
    assert(s.subrange(0, s.len() as int) =~= s);
}

/// Parses the `VAL_` line of an environment variable that starts at `i`;
/// returns it and the position after it.
pub fn parse_env_var_value_descriptions_at_pos(v: &Vec<char>, i: usize) -> (r: Option<
    (EnvironmentVariableValueDescriptions, usize),
>)
    requires
        i <= v@.len(),
    ensures
        match r {
            Some((d, j)) => parse_env_var_value_descriptions_at(v@, i as int) == Some(
                (d@, j as int),
            ) && i < j <= v@.len(),
            None => parse_env_var_value_descriptions_at(v@, i as int) is None,
        },
{
    let a = scan_multispace(v, i);
    let keyword: [char; 4] = ['V', 'A', 'L', '_'];
    assert(keyword@ =~= val_keyword());
    if !tag_at(v, a, &keyword) {
        return None;
    }
    let b = scan_space(v, scan_multispace(v, a + 4));
    let c = match scan_name(v, b) {
        Some(c) => c,
        None => return None,
    };
    let (value_descriptions, d) = match parse_descriptions_to_line_end_at(v, c) {
        Some(x) => x,
        None => return None,
    };
    let env_var_name = string_from_range(v, b, c);
    Some((EnvironmentVariableValueDescriptions { env_var_name, value_descriptions }, d))
}

/// Parses the `VAL_` line of an environment variable at the start of
/// `input`; returns the rest of the input and the value descriptions, or
/// `BadEnvironmentVariableValueDescriptions` where the input does not start
/// with one.
pub fn parser_env_var_value_descriptions(input: &str) -> (r: Result<
    (String, EnvironmentVariableValueDescriptions),
    DbcParseError,
>)
    ensures
        match r {
            Ok((rest, d)) => spec_parser_env_var_value_descriptions(input@) == Some((rest@, d@)),
            Err(e) => spec_parser_env_var_value_descriptions(input@) is None && e
                == DbcParseError::BadEnvironmentVariableValueDescriptions,
        },
{
    let cs = chars_of(input);
    let v = chars_from(&cs, scan_multispace(&cs, 0));
    match parse_env_var_value_descriptions_at_pos(&v, 0) {
        Some((d, j)) => Ok((string_from_range(&v, j, v.len()), d)),
        None => Err(DbcParseError::BadEnvironmentVariableValueDescriptions),
    }
}

/// The views of a list.
pub open spec fn env_var_value_descriptions_view(ds: Seq<EnvironmentVariableValueDescriptions>) -> Seq<SpecEnvironmentVariableValueDescriptions> {
    ds.map_values(|d: EnvironmentVariableValueDescriptions| d@)
}

/// The lines of this kind that follow one another from `j`, and the
/// position after the last.
pub open spec fn parse_env_var_value_descriptions_list(s: Seq<char>, j: int) -> (Seq<SpecEnvironmentVariableValueDescriptions>, int)
    decreases s.len() - j,
{
    match parse_env_var_value_descriptions_at(s, j) {
        Some((d, e)) => if j < e <= s.len() {
            let (rest, k) = parse_env_var_value_descriptions_list(s, e);
            (seq![d] + rest, k)
        } else {
            (Seq::empty(), j)
        },
        None => (Seq::empty(), j),
    }
}

/// The `VAL_` line of an environment variable read at `j` ends after `j`,
/// within the input.
pub proof fn lemma_env_var_value_descriptions_end_bounds(s: Seq<char>, j: int)
    requires
        0 <= j,
    ensures
        parse_env_var_value_descriptions_at(s, j) matches Some((_, f)) ==> j < f <= s.len(),
{
    broadcast use super::common_parsers::group_position_bounds;

    if parse_env_var_value_descriptions_at(s, j) is Some {
        let a = skip_multispace(s, j);
        let b = skip_space(s, skip_multispace(s, a + 4));
        let c = parse_name(s, b).unwrap();
        lemma_descriptions_end_bounds(s, c);
    }
}

/// White space before the `VAL_` line of an environment variable (spaces, tabs, `\r` and
/// `\n`, in any mix) does not change what is read there.
pub proof fn lemma_env_var_value_descriptions_skip_white_space(s: Seq<char>, j: int, k: int)
    requires
        0 <= j <= k <= s.len(),
        forall|m: int| j <= m < k ==> is_multispace(#[trigger] s[m]),
    ensures
        parse_env_var_value_descriptions_at(s, j) == parse_env_var_value_descriptions_at(s, k),
{
    lemma_run_end_through(s, j, k, CharClass::Multispace);
}

/// Every `VAL_` line of an environment variable in a run of them is read,
/// the last line of the input included: where one stands at `j`, the list
/// read from `j` is that line's descriptions, then the list read after it;
/// and where that line ends the input, the list is that line alone.
pub proof fn lemma_env_var_value_descriptions_list_reads_line(s: Seq<char>, j: int)
    requires
        0 <= j,
        parse_env_var_value_descriptions_at(s, j) is Some,
    ensures
        ({
            let (d, e) = parse_env_var_value_descriptions_at(s, j).unwrap();
            &&& parse_env_var_value_descriptions_list(s, j) == (
                seq![d] + parse_env_var_value_descriptions_list(s, e).0,
                parse_env_var_value_descriptions_list(s, e).1,
            )
            &&& e == s.len() ==> parse_env_var_value_descriptions_list(s, j) == (seq![d], e)
        }),
{
    lemma_env_var_value_descriptions_end_bounds(s, j);
    let (d, e) = parse_env_var_value_descriptions_at(s, j).unwrap();
    if e == s.len() {
        assert(!has_tag(s, skip_multispace(s, e), val_keyword()));
        assert(parse_env_var_value_descriptions_list(s, e).0 =~= Seq::<
            SpecEnvironmentVariableValueDescriptions,
        >::empty());
        assert(seq![d] + Seq::<SpecEnvironmentVariableValueDescriptions>::empty() =~= seq![d]);
    }
}

/// Parses the lines of this kind that follow one another from `i`; returns
/// them and the position after the last.
pub fn parse_env_var_value_descriptions_list_at(v: &Vec<char>, i: usize) -> (r: (Vec<EnvironmentVariableValueDescriptions>, usize))
    requires
        i <= v@.len(),
    ensures
        parse_env_var_value_descriptions_list(v@, i as int) == (env_var_value_descriptions_view(r.0@), r.1 as int),
        i <= r.1 <= v@.len(),
{
    let mut ds: Vec<EnvironmentVariableValueDescriptions> = Vec::new();
    let mut j = i;
    loop
        invariant
            i <= j <= v@.len(),
            parse_env_var_value_descriptions_list(v@, i as int) == (
                env_var_value_descriptions_view(ds@) + parse_env_var_value_descriptions_list(v@, j as int).0,
                parse_env_var_value_descriptions_list(v@, j as int).1,
            ),
        decreases v@.len() - j,
    {
        match parse_env_var_value_descriptions_at_pos(v, j) {
            Some((d, e)) => {
                let ghost before = env_var_value_descriptions_view(ds@);
                let ghost here = d@;
                ds.push(d);
                assert(env_var_value_descriptions_view(ds@) =~= before.push(here));
                assert(before + parse_env_var_value_descriptions_list(v@, j as int).0 =~= before.push(here)
                    + parse_env_var_value_descriptions_list(v@, e as int).0);
                j = e;
            },
            None => {
                assert(parse_env_var_value_descriptions_list(v@, j as int) == (Seq::<SpecEnvironmentVariableValueDescriptions>::empty(), j as int));
                assert(env_var_value_descriptions_view(ds@) + Seq::empty() =~= env_var_value_descriptions_view(ds@));
                return (ds, j);
            },
        }
    }
}

impl EnvironmentVariableValueDescriptions {
    /// Appends the written form of the value descriptions.
    pub fn write_to(&self, out: &mut String)
        ensures
            final(out)@ == old(out)@ + env_var_value_descriptions_text(self@),
    {
        push_char(out, 'V');
        push_char(out, 'A');
        push_char(out, 'L');
        push_char(out, '_');
        push_char(out, ' ');
        let name = chars_of(self.env_var_name.as_str());
        push_range(out, &name, 0, name.len());
        push_char(out, ' ');
        self.value_descriptions.write_to(out);
        push_char(out, ';');
        assert(name@.subrange(0, name@.len() as int) =~= self.env_var_name@);
        assert(out@ =~= old(out)@ + env_var_value_descriptions_text(self@));
    }

    /// The written form, e.g. `VAL_ RWEnvVar_wData 2 "Value2" 1 "Value1";`.
    pub fn to_string(&self) -> (s: String)
        ensures
            s@ == env_var_value_descriptions_text(self@),
    {
        let mut s = String::new();
        self.write_to(&mut s);
        s
    }
}

} // verus!
