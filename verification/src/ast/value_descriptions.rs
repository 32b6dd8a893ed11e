//! Value descriptions: the list of `number "text"` pairs that name the raw
//! values of a signal, of an environment variable or of a value table,
//! e.g. `3 "Three" 2 "Two" 1 "One" 0 "Zero"`.

use vstd::prelude::*;
use crate::text::{int_text, push_char, push_i64, push_range, string_from_range};
use super::common_parsers::{
    char_at, char_is, is_space, lemma_parse_i64_text, lemma_parse_quoted_text, lemma_run_end_at,
    line_endings_end, parse_i64, parse_quoted, scan_i64, scan_line_endings, scan_quoted,
    scan_space, skip_space, CharClass,
};

verus! {

/// One raw value and the text that names it.
#[derive(Clone, Debug, PartialEq)]
pub struct ValueDescriptionItem {
    pub num: i64,
    pub str: String,
}

/// A value description as a mathematical value.
pub struct SpecValueDescriptionItem {
    pub num: i64,
    pub str: Seq<char>,
}

impl View for ValueDescriptionItem {
    type V = SpecValueDescriptionItem;

    open spec fn view(&self) -> SpecValueDescriptionItem {
        SpecValueDescriptionItem { num: self.num, str: self.str@ }
    }
}

/// The value descriptions of one signal, environment variable or table, in
/// the order in which they are written.
#[derive(Clone, Debug, PartialEq)]
pub struct ValueDescriptions {
    pub values: Vec<ValueDescriptionItem>,
}

impl View for ValueDescriptions {
    type V = Seq<SpecValueDescriptionItem>;

    open spec fn view(&self) -> Seq<SpecValueDescriptionItem> {
        self.values@.map_values(|x: ValueDescriptionItem| x@)
    }
}

/// One value description at `i`: spaces, a number, spaces, a quoted text,
/// spaces; and the position after it.
pub open spec fn parse_value_description_item(s: Seq<char>, i: int) -> Option<
    (SpecValueDescriptionItem, int),
> {
    let a = skip_space(s, i);
    match parse_i64(s, a) {
        Some((num, b)) => {
            let c = skip_space(s, b);
            match parse_quoted(s, c) {
                Some(d) => Some(
                    (
                        SpecValueDescriptionItem { num, str: s.subrange(c + 1, d - 1) },
                        skip_space(s, d),
                    ),
                ),
                None => None,
            }
        },
        None => None,
    }
}

/// As many value descriptions as follow one another from `i` (none
/// included), and the position after the last of them.
pub open spec fn parse_value_description_items(s: Seq<char>, i: int) -> (
    Seq<SpecValueDescriptionItem>,
    int,
)
    decreases s.len() - i,
{
    match parse_value_description_item(s, i) {
        Some((item, j)) => if i < j <= s.len() {
            let (rest, k) = parse_value_description_items(s, j);
            (seq![item] + rest, k)
        } else {
            (Seq::empty(), i)
        },
        None => (Seq::empty(), i),
    }
}

/// How a value description is written: the number, a space, the text in
/// double quotes.
pub open spec fn item_text(item: SpecValueDescriptionItem) -> Seq<char> {
    int_text(item.num as int) + seq![' ', '"'] + item.str + seq!['"']
}

/// How value descriptions are written: one after the other, separated by a
/// space.
pub open spec fn items_text(items: Seq<SpecValueDescriptionItem>) -> Seq<char>
    decreases items.len(),
{
    if items.len() == 0 {
        Seq::empty()
    } else if items.len() == 1 {
        item_text(items[0])
    } else {
        item_text(items[0]) + seq![' '] + items_text(items.drop_first())
    }
}

fn parse_item(v: &Vec<char>, i: usize) -> (r: Option<(ValueDescriptionItem, usize)>)
    requires
        i <= v@.len(),
    ensures
        match r {
            Some((item, j)) => parse_value_description_item(v@, i as int) == Some(
                (item@, j as int),
            ) && i < j <= v@.len(),
            None => parse_value_description_item(v@, i as int) is None,
        },
{
    let a = scan_space(v, i);
    match scan_i64(v, a) {
        Some((num, b)) => {
            let c = scan_space(v, b);
            match scan_quoted(v, c) {
                Some(d) => {
                    let text = string_from_range(v, c + 1, d - 1);
                    let e = scan_space(v, d);
                    Some((ValueDescriptionItem { num, str: text }, e))
                },
                None => None,
            }
        },
        None => None,
    }
}

/// Parses the value descriptions that follow one another from `i`; returns
/// them and the position after the last.
pub fn parser_value_descriptions(v: &Vec<char>, i: usize) -> (r: (ValueDescriptions, usize))
    requires
        i <= v@.len(),
    ensures
        parse_value_description_items(v@, i as int) == (r.0@, r.1 as int),
        i <= r.1 <= v@.len(),
{
    let mut values: Vec<ValueDescriptionItem> = Vec::new();
    let mut j = i;
    loop
        invariant
            i <= j <= v@.len(),
            parse_value_description_items(v@, i as int) == (
                values@.map_values(|x: ValueDescriptionItem| x@) + parse_value_description_items(
                    v@,
                    j as int,
                ).0,
                parse_value_description_items(v@, j as int).1,
            ),
        decreases v@.len() - j,
    {
        match parse_item(v, j) {
            Some((item, k)) => {
                let ghost before = values@.map_values(|x: ValueDescriptionItem| x@);
                let ghost here = item@;
                values.push(item);
                assert(values@.map_values(|x: ValueDescriptionItem| x@) =~= before.push(here));
                assert(before + parse_value_description_items(v@, j as int).0 =~= before.push(
                    here,
                ) + parse_value_description_items(v@, k as int).0);
                j = k;
            },
            None => {
                assert(values@.map_values(|x: ValueDescriptionItem| x@) + Seq::empty()
                    =~= values@.map_values(|x: ValueDescriptionItem| x@));
                return (ValueDescriptions { values }, j);
            },
        }
    }
}

fn push_item(out: &mut String, item: &ValueDescriptionItem)
    ensures
        final(out)@ == old(out)@ + item_text(item@),
{
    push_i64(out, item.num);
    push_char(out, ' ');
    push_char(out, '"');
    let cs = crate::text::chars_of(item.str.as_str());
    push_range(out, &cs, 0, cs.len());
    push_char(out, '"');
    assert(cs@.subrange(0, cs@.len() as int) =~= item.str@);
    assert(out@ =~= old(out)@ + item_text(item@));
}

proof fn lemma_items_text_take(items: Seq<SpecValueDescriptionItem>, k: int)
    requires
        1 <= k < items.len(),
    ensures
        items_text(items.take(k + 1)) == items_text(items.take(k)) + seq![' '] + item_text(
            items[k],
        ),
    decreases k,
{
    let t1 = items.take(k + 1);
    let t0 = items.take(k);
    assert(t1[0] == items[0]);
    if k == 1 {
        assert(t1.drop_first() =~= seq![items[1]]);
        assert(items_text(seq![items[1]]) == item_text(items[1]));
        assert(t0 =~= seq![items[0]]);
        assert(items_text(t0) == item_text(items[0]));
    } else {
        let d = items.drop_first();
        lemma_items_text_take(d, k - 1);
        assert(t1.drop_first() =~= d.take(k));
        assert(t0.drop_first() =~= d.take(k - 1));
        assert(t0[0] == items[0]);
        assert(d[k - 1] == items[k]);
        assert(items_text(t1) == item_text(items[0]) + seq![' '] + items_text(d.take(k)));
        assert(items_text(t0) == item_text(items[0]) + seq![' '] + items_text(d.take(k - 1)));
        assert(items_text(t1) =~= items_text(t0) + seq![' '] + item_text(items[k]));
    }
}

/// Texts that can be written in double quotes: none holds a double quote.
pub open spec fn items_are_quotable(items: Seq<SpecValueDescriptionItem>) -> bool {
    forall|k: int, j: int|
        0 <= k < items.len() && 0 <= j < items[k].str.len() ==> #[trigger] items[k].str[j] != '"'
}

proof fn lemma_item_text_parse(s: Seq<char>, p: int, item: SpecValueDescriptionItem)
    requires
        0 <= p,
        p + item_text(item).len() <= s.len(),
        s.subrange(p, p + item_text(item).len()) == item_text(item),
        forall|j: int| 0 <= j < item.str.len() ==> #[trigger] item.str[j] != '"',
    ensures
        ({
            let l1 = crate::text::int_text(item.num as int).len() as int;
            &&& skip_space(s, p) == p
            &&& parse_i64(s, p) == Some((item.num, p + l1))
            &&& skip_space(s, p + l1) == p + l1 + 1
            &&& parse_quoted(s, p + l1 + 1) == Some(p + item_text(item).len())
            &&& s.subrange(p + l1 + 2, p + item_text(item).len() - 1) == item.str
        }),
{
    let t = item_text(item);
    let it = int_text(item.num as int);
    let l1 = it.len() as int;
    let lt = t.len() as int;
    let ls = item.str.len() as int;
    assert(s.subrange(p, p + l1) =~= s.subrange(p, p + lt).subrange(0, l1));
    assert(t.subrange(0, l1) =~= it);
    assert(s[p + l1] == t[l1]);
    assert(s[p + l1 + 1] == t[l1 + 1]);
    lemma_parse_i64_text(s, p, item.num);
    assert(s[p] == t[0]);
    assert(t[0] == it[0]);
    assert(!is_space(s[p])) by {
        if item.num < 0 {
        } else {
            crate::text::lemma_nat_text_digits(item.num as nat);
            assert(crate::text::is_digit(crate::text::nat_text(item.num as nat)[0]));
        }
    }
    lemma_run_end_at(s, p, p, CharClass::Space);
    lemma_run_end_at(s, p + l1, p + l1 + 1, CharClass::Space);
    assert(s.subrange(p + l1 + 1, p + l1 + 1 + ls + 2) =~= seq!['"'] + item.str + seq!['"']) by {
        assert(s.subrange(p + l1 + 1, p + lt) =~= s.subrange(p, p + lt).subrange(l1 + 1, lt));
        assert(t.subrange(l1 + 1, lt) =~= seq!['"'] + item.str + seq!['"']);
    }
    lemma_parse_quoted_text(s, p + l1 + 1, item.str);
    assert(s.subrange(p + l1 + 2, p + lt - 1) =~= s.subrange(p, p + lt).subrange(l1 + 2, lt - 1));
    assert(t.subrange(l1 + 2, lt - 1) =~= item.str);
}

pub proof fn lemma_items_text_head(items: Seq<SpecValueDescriptionItem>)
    requires
        items.len() > 0,
    ensures
        items_text(items).len() > 0,
        !is_space(items_text(items)[0]),
        items_text(items)[0] != ';',
{
    let t0 = item_text(items[0]);
    let n = items[0].num;
    if items.len() > 1 {
        assert(items_text(items) == t0 + seq![' '] + items_text(items.drop_first()));
    }
    assert(items_text(items)[0] == t0[0]);
    assert(t0[0] == int_text(n as int)[0]);
    if n >= 0 {
        crate::text::lemma_nat_text_digits(n as nat);
        assert(crate::text::is_digit(crate::text::nat_text(n as nat)[0]));
    }
}

/// Written value descriptions followed by `;` parse back to the same
/// descriptions, and end where the `;` stands.
pub proof fn lemma_items_text_parse(s: Seq<char>, p: int, items: Seq<SpecValueDescriptionItem>)
    requires
        0 <= p,
        p + items_text(items).len() < s.len(),
        s.subrange(p, p + items_text(items).len()) == items_text(items),
        s[p + items_text(items).len()] == ';',
        items_are_quotable(items),
    ensures
        parse_value_description_items(s, p) == (items, p + items_text(items).len()),
    decreases items.len(),
{
    let l = items_text(items).len() as int;
    if items.len() == 0 {
        lemma_run_end_at(s, p, p, CharClass::Space);
        lemma_run_end_at(s, p, p, CharClass::Digit);
        assert(parse_i64(s, p) is None);
    } else {
        let item = items[0];
        let t = item_text(item);
        let lt = t.len() as int;
        let l1 = int_text(item.num as int).len() as int;
        assert(s.subrange(p, p + lt) =~= s.subrange(p, p + l).subrange(0, lt));
        assert(items_text(items).subrange(0, lt) =~= t);
        assert forall|j: int| 0 <= j < item.str.len() implies #[trigger] item.str[j] != '"' by {
            assert(items[0].str[j] != '"');
        }
        lemma_item_text_parse(s, p, item);
        let rest = items.drop_first();
        assert(items_are_quotable(rest)) by {
            assert forall|k: int, j: int|
                0 <= k < rest.len() && 0 <= j < rest[k].str.len() implies #[trigger] rest[k].str[j]
                != '"' by {
                assert(rest[k] == items[k + 1]);
            }
        }
        if items.len() == 1 {
            assert(s[p + lt] == ';');
            lemma_run_end_at(s, p + lt, p + lt, CharClass::Space);
            assert(items_text(rest) =~= Seq::<char>::empty());
            assert(s.subrange(p + lt, p + lt) =~= Seq::<char>::empty());
            assert(items_text(items) == t);
            lemma_items_text_parse(s, p + lt, rest);
        } else {
            let lr = items_text(rest).len() as int;
            assert(items_text(items) == t + seq![' '] + items_text(rest));
            assert(s[p + lt] == items_text(items)[lt]);
            assert(s.subrange(p + lt + 1, p + lt + 1 + lr) =~= s.subrange(p, p + l).subrange(
                lt + 1,
                l,
            ));
            assert(items_text(items).subrange(lt + 1, l) =~= items_text(rest));
            assert(s[p + lt + 1 + lr] == ';');
            lemma_items_text_parse(s, p + lt + 1, rest);
            lemma_items_text_head(rest);
            assert(s[p + lt + 1] == items_text(rest)[0]);
            lemma_run_end_at(s, p + lt, p + lt + 1, CharClass::Space);
        }
        assert(seq![item] + rest =~= items);
    }
}

/// The end of a `VAL_` line from `i` on: spaces, the value descriptions,
/// spaces, `;`, spaces and any number of line endings; the descriptions and
/// the position after it all.
pub open spec fn parse_descriptions_to_line_end(s: Seq<char>, i: int) -> Option<
    (Seq<SpecValueDescriptionItem>, int),
> {
    let (items, f) = parse_value_description_items(s, skip_space(s, i));
    let g = skip_space(s, f);
    if char_at(s, g, ';') {
        Some((items, line_endings_end(s, skip_space(s, g + 1))))
    } else {
        None
    }
}

/// The value descriptions that follow one another from `i` end at or after
/// `i`, within the input.
pub proof fn lemma_items_end_bounds(s: Seq<char>, i: int)
    requires
        0 <= i <= s.len(),
    ensures
        i <= parse_value_description_items(s, i).1 <= s.len(),
    decreases s.len() - i,
{
    match parse_value_description_item(s, i) {
        Some((item, j)) => if i < j <= s.len() {
            lemma_items_end_bounds(s, j);
        },
        None => {},
    }
}

/// Every value description in a run of them is read, the last of the input
/// included: where one stands at `i`, the descriptions read from `i` are
/// that one, then the descriptions read after it.
pub proof fn lemma_items_read_item(s: Seq<char>, i: int)
    requires
        0 <= i <= s.len(),
        parse_value_description_item(s, i) is Some,
    ensures
        ({
            let (item, j) = parse_value_description_item(s, i).unwrap();
            parse_value_description_items(s, i) == (
                seq![item] + parse_value_description_items(s, j).0,
                parse_value_description_items(s, j).1,
            )
        }),
{
    broadcast use super::common_parsers::group_position_bounds;

}

/// The end of a line's value descriptions lies after `i`, within the input.
pub proof fn lemma_descriptions_end_bounds(s: Seq<char>, i: int)
    requires
        0 <= i <= s.len(),
    ensures
        parse_descriptions_to_line_end(s, i) matches Some((_, f)) ==> i < f <= s.len(),
{
    broadcast use super::common_parsers::group_position_bounds;

    lemma_items_end_bounds(s, skip_space(s, i));
}

pub fn parse_descriptions_to_line_end_at(v: &Vec<char>, i: usize) -> (r: Option<
    (ValueDescriptions, usize),
>)
    requires
        i <= v@.len(),
    ensures
        match r {
            Some((d, j)) => parse_descriptions_to_line_end(v@, i as int) == Some((d@, j as int))
                && i < j <= v@.len(),
            None => parse_descriptions_to_line_end(v@, i as int) is None,
        },
{
    let (descriptions, f) = parser_value_descriptions(v, scan_space(v, i));
    let g = scan_space(v, f);
    if !char_is(v, g, ';') {
        return None;
    }
    let h = scan_line_endings(v, scan_space(v, g + 1));
    Some((descriptions, h))
}

/// A space, written value descriptions and `;` at the end of the input parse
/// back to the same descriptions and reach the end.
pub proof fn lemma_descriptions_line_roundtrip(s: Seq<char>, i: int, items: Seq<
    SpecValueDescriptionItem,
>)
    requires
        0 <= i,
        i + items_text(items).len() + 2 == s.len(),
        s.subrange(i, s.len() as int) == seq![' '] + items_text(items) + seq![';'],
        items_are_quotable(items),
    ensures
        parse_descriptions_to_line_end(s, i) == Some((items, s.len() as int)),
{
    let p = i + 1;
    let l = items_text(items).len() as int;
    let tail = seq![' '] + items_text(items) + seq![';'];
    assert(s[i] == tail[0]);
    if items.len() > 0 {
        lemma_items_text_head(items);
        assert(s[p] == tail[1]);
        assert(tail[1] == items_text(items)[0]);
    } else {
        assert(s[p] == tail[1]);
    }
    lemma_run_end_at(s, i, p, CharClass::Space);
    assert(s.subrange(p, p + l) =~= s.subrange(i, s.len() as int).subrange(1, l + 1));
    assert(tail.subrange(1, l + 1) =~= items_text(items));
    assert(s[p + l] == tail[l + 1]);
    lemma_items_text_parse(s, p, items);
    lemma_run_end_at(s, p + l, p + l, CharClass::Space);
    lemma_run_end_at(s, p + l + 1, p + l + 1, CharClass::Space);
}

impl ValueDescriptions {
    /// Appends the written form of the value descriptions.
    pub fn write_to(&self, out: &mut String)
        ensures
            final(out)@ == old(out)@ + items_text(self@),
    {
        let n = self.values.len();
        let ghost items = self@;
        assert(items.take(0) =~= Seq::<SpecValueDescriptionItem>::empty());
        for k in 0..n
            invariant
                n == self.values@.len(),
                items == self@,
                out@ == old(out)@ + items_text(items.take(k as int)),
        {
            if k > 0 {
                push_char(out, ' ');
                proof {
                    lemma_items_text_take(items, k as int);
                }
            } else {
                assert(items.take(1) =~= seq![items[0]]);
            }
            push_item(out, &self.values[k]);
            assert(out@ =~= old(out)@ + items_text(items.take(k + 1)));
        }
        assert(items.take(n as int) =~= items);
    }

    /// The written form of the value descriptions, e.g.
    /// `2 "Value2" 1 "Value1" 0 "Value0"`.
    pub fn to_string(&self) -> (s: String)
        ensures
            s@ == items_text(self@),
    {
        let mut s = String::new();
        self.write_to(&mut s);
        s
    }
}

} // verus!
