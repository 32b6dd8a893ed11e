//! The version line: `VERSION "1.0"`.

use vstd::prelude::*;
use crate::text::{chars_of, push_char, push_range, push_slice, string_from_range};
use super::common_parsers::{
    has_tag, lemma_parse_quoted_text, lemma_run_end_at, lemma_sub, parse_quoted, scan_quoted,
    scan_space, skip_space, tag_at, CharClass,
};

verus! {

#[derive(Clone, Debug, PartialEq)]
pub struct Version(pub String);

impl View for Version {
    type V = Seq<char>;

    open spec fn view(&self) -> Seq<char> {
        self.0@
    }
}

pub open spec fn version_keyword() -> Seq<char> {
    seq!['V', 'E', 'R', 'S', 'I', 'O', 'N']
}

/// The version line that starts at `i`: `VERSION`, spaces, the version in
/// double quotes; the version and the position after the closing quote.
pub open spec fn parse_version_at(s: Seq<char>, i: int) -> Option<(Seq<char>, int)> {
    let q = skip_space(s, i + 7);
    if !has_tag(s, i, version_keyword()) {
        None
    } else {
        match parse_quoted(s, q) {
            Some(e) => Some((s.subrange(q + 1, e - 1), e)),
            None => None,
        }
    }
}

/// How the version line is written: `VERSION "<version>"`.
pub open spec fn version_text(v: Seq<char>) -> Seq<char> {
    version_keyword() + seq![' ', '"'] + v + seq!['"']
}

/// The written version line reads back as the same version, whenever the
/// version holds no double quote.
pub proof fn lemma_version_text_parse(s: Seq<char>, p: int, v: Seq<char>)
    requires
        0 <= p,
        p + version_text(v).len() <= s.len(),
        s.subrange(p, p + version_text(v).len()) == version_text(v),
        forall|j: int| 0 <= j < v.len() ==> #[trigger] v[j] != '"',
    ensures
        parse_version_at(s, p) == Some((v, p + version_text(v).len())),
{
    let t = version_text(v);
    let l = t.len() as int;
    lemma_sub(s, p, t, 0, l);
    assert(t.subrange(0, 7) =~= version_keyword());
    lemma_sub(s, p, t, 0, 7);
    assert(t[7] == ' ' && t[8] == '"');
    lemma_run_end_at(s, p + 7, p + 8, CharClass::Space);
    lemma_sub(s, p, t, 8, l);
    assert(t.subrange(8, l) =~= seq!['"'] + v + seq!['"']);
    lemma_parse_quoted_text(s, p + 8, v);
    lemma_sub(s, p, t, 9, l - 1);
    assert(t.subrange(9, l - 1) =~= v);
}

pub fn parse_version_at_pos(v: &Vec<char>, i: usize) -> (r: Option<(Version, usize)>)
    requires
        i <= v@.len(),
    ensures
        match r {
            Some((x, j)) => parse_version_at(v@, i as int) == Some((x@, j as int)) && i < j
                <= v@.len(),
            None => parse_version_at(v@, i as int) is None,
        },
{
    let keyword: [char; 7] = ['V', 'E', 'R', 'S', 'I', 'O', 'N'];
    assert(keyword@ =~= version_keyword());
    if !tag_at(v, i, &keyword) {
        return None;
    }
    let q = scan_space(v, i + 7);
    match scan_quoted(v, q) {
        Some(e) => Some((Version(string_from_range(v, q + 1, e - 1)), e)),
        None => None,
    }
}

impl Version {
    /// Appends the version line.
    pub fn write_to(&self, out: &mut String)
        ensures
            final(out)@ == old(out)@ + version_text(self@),
    {
        let keyword: [char; 7] = ['V', 'E', 'R', 'S', 'I', 'O', 'N'];
        assert(keyword@ =~= version_keyword());
        push_slice(out, &keyword);
        push_char(out, ' ');
        push_char(out, '"');
        let cs = chars_of(self.0.as_str());
        push_range(out, &cs, 0, cs.len());
        push_char(out, '"');
        assert(cs@.subrange(0, cs@.len() as int) =~= self@);
        assert(out@ =~= old(out)@ + version_text(self@));
    }

    /// The version line, e.g. `VERSION "1.0"`.
    pub fn to_string(&self) -> (s: String)
        ensures
            s@ == version_text(self@),
    {
        let mut s = String::new();
        self.write_to(&mut s);
        s
    }
}

} // verus!
