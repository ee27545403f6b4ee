//! The context widget's fallback source: usage entries in the transcript.

use vstd::prelude::*;

use crate::git::string_views;
use crate::text::{chars_of, contains, contains_chars, lines_chars, lines_of, string_of, views};

verus! {

/// A transcript line that may carry a usage entry.
pub open spec fn mentions_usage(line: Seq<char>) -> bool {
    contains(line, "\"usage\""@)
}

/// The lines that mention `"usage"`, last line first.
pub open spec fn usage_lines_of(ls: Seq<Seq<char>>) -> Seq<Seq<char>>
    decreases ls.len(),
{
    if ls.len() == 0 {
        Seq::empty()
    } else {
        let rest = usage_lines_of(ls.drop_last());
        if mentions_usage(ls.last()) {
            seq![ls.last()] + rest
        } else {
            rest
        }
    }
}

/// The lines of a transcript tail that may hold a usage entry, newest
/// first, in the order in which they are tried.
pub fn usage_lines_newest_first(content: &str) -> (r: Vec<String>)
    ensures
        string_views(r@) == usage_lines_of(lines_of(content@)),
{
    let v = chars_of(content);
    let ls = lines_chars(&v);
    let ghost lv = views(ls@);
    let key = chars_of("\"usage\"");
    let mut r: Vec<String> = Vec::new();
    let mut i: usize = ls.len();
    assert(lv.take(i as int) =~= lv);
    assert(string_views(r@) =~= Seq::<Seq<char>>::empty());
    while i > 0
        invariant
            i <= ls@.len(),
            lv == views(ls@),
            lv == lines_of(content@),
            key@ == "\"usage\""@,
            string_views(r@) + usage_lines_of(lv.take(i as int)) == usage_lines_of(lv),
        decreases i,
    {
        let ghost before = string_views(r@);
        assert(lv.take(i as int).drop_last() =~= lv.take(i - 1));
        assert(lv.take(i as int).last() == lv[i - 1]);
        i = i - 1;
        if contains_chars(&ls[i], &key) {
            r.push(string_of(&ls[i]));
            assert(string_views(r@) =~= before + seq![lv[i as int]]);
            assert(before + seq![lv[i as int]] + usage_lines_of(lv.take(i as int)) =~= before + (
            seq![lv[i as int]] + usage_lines_of(lv.take(i as int))));
        }
    }
    assert(lv.take(0) =~= Seq::<Seq<char>>::empty());
    assert(string_views(r@) =~= string_views(r@) + Seq::<Seq<char>>::empty());
    r
}

} // verus!
