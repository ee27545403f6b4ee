//! The repository widgets: project name, branch, and uncommitted diff size.

use vstd::prelude::*;

use crate::input::{first_present, opt_view, StatusInput};
use crate::text::{
    all_digits, is_first_occurrence, lemma_decimal_digits, lemma_parse_decimal, occurs_at,
    chars_of, decimal, find_first, first_occurrence, is_digit, is_digit_char, parse_u64,
    parse_u64_chars, push_decimal, push_str, string_of, sub_chars, trim, trim_chars,
};

verus! {

/// What `Path::file_name` gives for `path`, as text: the final component,
/// or `None` when the path has none (it is empty, a root, or ends in `..`).
pub uninterp spec fn file_name_of(path: Seq<char>) -> Option<Seq<char>>;

/// Calls `std::path::Path::file_name` on `dir` and turns the component into
/// a `String` (lossless, since it comes from a `&str`).  The contract claims
/// only that the result is the named value `file_name_of(dir)`, the same for
/// the same argument on the platform the crate is built for.
#[verifier::external_body]
fn path_file_name(dir: &str) -> (r: Option<String>)
    ensures
        match r {
            Some(n) => file_name_of(dir@) == Some(n@),
            None => file_name_of(dir@) is None,
        },
{
    match std::path::Path::new(dir).file_name() {
        Some(n) => Some(n.to_string_lossy().into_owned()),
        None => None,
    }
}

/// The directory whose name is the project's: `workspace.project_dir`,
/// else `workspace.current_dir`, else `cwd`.
pub open spec fn project_dir_of(d: StatusInput) -> Option<Seq<char>> {
    first_present(opt_view(d.project_dir), first_present(opt_view(d.current_dir), opt_view(d.cwd)))
}

/// The repository name: the last component of the project directory, when
/// there is one and it is not empty.
pub open spec fn repo_name_of(d: StatusInput) -> Option<Seq<char>> {
    match project_dir_of(d) {
        Some(dir) => match file_name_of(dir) {
            Some(n) => if n.len() > 0 {
                Some(n)
            } else {
                None
            },
            None => None,
        },
        None => None,
    }
}

/// Basename of the project dir (the repo name for git projects).
pub fn repo_name(data: &StatusInput) -> (r: Option<String>)
    ensures
        opt_view(r) == repo_name_of(*data),
{
    let dir = match &data.project_dir {
        Some(d) => d,
        None => match &data.current_dir {
            Some(d) => d,
            None => match &data.cwd {
                Some(d) => d,
                None => {
                    return None;
                },
            },
        },
    };
    match path_file_name(dir.as_str()) {
        Some(n) => {
            if n.as_str().unicode_len() > 0 {
                Some(n)
            } else {
                None
            }
        },
        None => None,
    }
}

/// The directory in which git runs: `workspace.current_dir`, else `cwd`, else `.`.
pub open spec fn git_dir_of(d: StatusInput) -> Seq<char> {
    match first_present(opt_view(d.current_dir), opt_view(d.cwd)) {
        Some(dir) => dir,
        None => "."@,
    }
}

/// The directory in which git runs.
pub fn git_dir(data: &StatusInput) -> (r: String)
    ensures
        r@ == git_dir_of(*data),
{
    match &data.current_dir {
        Some(d) => d.clone(),
        None => match &data.cwd {
            Some(d) => d.clone(),
            None => {
                let mut r = String::new();
                push_str(&mut r, ".");
                assert(r@ =~= "."@);
                r
            },
        },
    }
}

/// The ASCII digits at the very end of `p`.
pub open spec fn trailing_digits(p: Seq<char>) -> Seq<char>
    decreases p.len(),
{
    if p.len() > 0 && is_digit(p.last()) {
        trailing_digits(p.drop_last()).push(p.last())
    } else {
        Seq::empty()
    }
}

/// The last maximal run of ASCII digits in `p` (empty when there is none).
pub open spec fn last_digit_run(p: Seq<char>) -> Seq<char>
    decreases p.len(),
{
    if p.len() == 0 {
        Seq::empty()
    } else if !is_digit(p.last()) {
        last_digit_run(p.drop_last())
    } else {
        trailing_digits(p)
    }
}

/// The count written before the first occurrence of `word`: the last run of
/// digits before it, read as a `u64`; 0 when `word` does not occur, no digit
/// precedes it, or the number does not fit.
pub open spec fn stat_count(stat: Seq<char>, word: Seq<char>) -> u64 {
    match first_occurrence(stat, word) {
        Some(i) => match parse_u64(last_digit_run(stat.take(i))) {
            Some(n) => n,
            None => 0,
        },
        None => 0,
    }
}

/// Pulls the number before e.g. "insertion" out of `git diff --shortstat`.
pub fn parse_stat(stat: &str, word: &str) -> (r: u64)
    ensures
        r == stat_count(stat@, word@),
{
    let v = chars_of(stat);
    let w = chars_of(word);
    let i = match find_first(&v, &w) {
        Some(i) => i,
        None => {
            return 0;
        },
    };
    let ghost p = v@.take(i as int);
    assert(i <= v@.len()) by {
        let k = first_occurrence(v@, w@)->0;
        assert(crate::text::is_first_occurrence(v@, w@, k));
    }
    let mut j: usize = i;
    while j > 0 && !is_digit_char(v[j - 1])
        invariant
            j <= i <= v@.len(),
            p == v@.take(i as int),
            last_digit_run(p) == last_digit_run(v@.take(j as int)),
        decreases j,
    {
        assert(v@.take(j as int).drop_last() =~= v@.take(j - 1));
        j = j - 1;
    }
    let end = j;
    assert(v@.subrange(j as int, end as int) =~= Seq::<char>::empty());
    while j > 0 && is_digit_char(v[j - 1])
        invariant
            j <= end <= i <= v@.len(),
            p == v@.take(i as int),
            trailing_digits(v@.take(end as int)) == trailing_digits(v@.take(j as int)) + v@.subrange(
                j as int,
                end as int,
            ),
        decreases j,
    {
        assert(v@.take(j as int).drop_last() =~= v@.take(j - 1));
        assert(v@.subrange(j - 1, end as int) =~= seq![v@[j - 1]] + v@.subrange(j as int, end as int));
        assert(trailing_digits(v@.take(j - 1)).push(v@[j - 1]) + v@.subrange(j as int, end as int)
            =~= trailing_digits(v@.take(j - 1)) + v@.subrange(j - 1, end as int));
        j = j - 1;
    }
    assert(trailing_digits(v@.take(j as int)) =~= Seq::<char>::empty());
    let run = sub_chars(&v, j, end);
    assert(run@ =~= last_digit_run(p)) by {
        if end == 0 {
            assert(v@.take(0) =~= Seq::<char>::empty());
        }
    }
    match parse_u64_chars(&run) {
        Some(n) => n,
        None => 0,
    }
}

/// The digits at the end of `x + d` are `d` when `x` does not end in a digit.
proof fn lemma_trailing_digits_concat(x: Seq<char>, d: Seq<char>)
    requires
        all_digits(d),
        x.len() == 0 || !is_digit(x.last()),
    ensures
        trailing_digits(x + d) == d,
    decreases d.len(),
{
    if d.len() == 0 {
        assert(x + d =~= x);
        assert(trailing_digits(x) =~= d);
    } else {
        let t = d.drop_last();
        assert(all_digits(t));
        lemma_trailing_digits_concat(x, t);
        assert((x + d).drop_last() =~= x + t);
        assert((x + d).last() == d.last());
        assert(is_digit(d[d.len() - 1]));
        assert(t.push(d.last()) =~= d);
    }
}

/// `p` is where `w` first occurs in `s` when it occurs there and nowhere before.
proof fn lemma_first_occurrence_at(s: Seq<char>, w: Seq<char>, p: int)
    requires
        is_first_occurrence(s, w, p),
    ensures
        first_occurrence(s, w) == Some(p),
{
    let k = choose|k: int| is_first_occurrence(s, w, k);
    assert(k == p) by {
        if k < p {
            assert(!occurs_at(s, w, k));
        } else if k > p {
            assert(!occurs_at(s, w, p));
        }
    }
}

/// The first occurrence of `word` after `head` when `head` holds no
/// character that starts `word`.
proof fn lemma_word_first_after(head: Seq<char>, word: Seq<char>, rest: Seq<char>)
    requires
        word.len() > 0,
        forall|i: int| 0 <= i < head.len() ==> head[i] != word[0],
    ensures
        first_occurrence(head + word + rest, word) == Some(head.len() as int),
{
    let s = head + word + rest;
    let p = head.len() as int;
    assert(s.subrange(p, p + word.len()) =~= word);
    assert forall|j: int| 0 <= j < p implies !#[trigger] occurs_at(s, word, j) by {
        if occurs_at(s, word, j) {
            assert(s.subrange(j, j + word.len())[0] == s[j]);
            assert(s[j] == head[j]);
        }
    }
    lemma_first_occurrence_at(s, word, p);
}

/// A count written as `git diff --shortstat` writes it (after text without
/// the word's first character: a decimal number, a space, the word) reads
/// back as that number.
pub proof fn law_stat_count_reads_written_count(
    n: u64,
    before: Seq<char>,
    word: Seq<char>,
    rest: Seq<char>,
)
    requires
        word.len() > 0,
        !is_digit(word[0]),
        word[0] != ' ',
        forall|i: int| 0 <= i < before.len() ==> before[i] != word[0],
        before.len() == 0 || !is_digit(before.last()),
    ensures
        stat_count(before + decimal(n as nat) + seq![' '] + word + rest, word) == n,
{
    let d = decimal(n as nat);
    lemma_decimal_digits(n as nat);
    lemma_parse_decimal(n as nat, u64::MAX as nat);
    let head = before + d + seq![' '];
    assert forall|i: int| 0 <= i < head.len() implies head[i] != word[0] by {
        if i < before.len() {
            assert(head[i] == before[i]);
        } else if i < before.len() + d.len() {
            assert(head[i] == d[i - before.len()]);
            assert(is_digit(d[i - before.len()]));
        } else {
            assert(head[i] == ' ');
        }
    }
    lemma_word_first_after(head, word, rest);
    let s = head + word + rest;
    assert(s.take(head.len() as int) =~= head);
    assert(head.drop_last() =~= before + d);
    assert(head.last() == ' ');
    lemma_trailing_digits_concat(before, d);
    assert((before + d).last() == d.last());
    assert(is_digit(d[d.len() - 1]));
    assert(!is_digit(head.last()));
    assert(last_digit_run(head) == last_digit_run(before + d));
    assert(last_digit_run(before + d) == trailing_digits(before + d));
}

/// No character `a` of `s` is directly followed by `b`.
pub open spec fn no_pair(s: Seq<char>, a: char, b: char) -> bool {
    forall|i: int| 0 <= i < s.len() - 1 ==> !(#[trigger] s[i] == a && s[i + 1] == b)
}

/// A word of two or more characters does not occur where its first two
/// characters never stand next to each other.
proof fn lemma_absent_by_pair(s: Seq<char>, w: Seq<char>)
    requires
        w.len() >= 2,
        no_pair(s, w[0], w[1]),
    ensures
        first_occurrence(s, w) is None,
{
    assert forall|j: int| !#[trigger] occurs_at(s, w, j) by {
        if occurs_at(s, w, j) {
            assert(s.subrange(j, j + w.len())[0] == s[j]);
            assert(s.subrange(j, j + w.len())[1] == s[j + 1]);
        }
    }
}

/// The first occurrence of `word` after `head` when the first two
/// characters of `word` never stand next to each other in `head`, nor does
/// `head` end with the first one.
proof fn lemma_word_first_after_pair(head: Seq<char>, word: Seq<char>, rest: Seq<char>)
    requires
        word.len() >= 2,
        no_pair(head, word[0], word[1]),
        head.len() == 0 || head.last() != word[0],
    ensures
        first_occurrence(head + word + rest, word) == Some(head.len() as int),
{
    let s = head + word + rest;
    let p = head.len() as int;
    assert(s.subrange(p, p + word.len()) =~= word);
    assert forall|j: int| 0 <= j < p implies !#[trigger] occurs_at(s, word, j) by {
        if occurs_at(s, word, j) {
            assert(s.subrange(j, j + word.len())[0] == s[j]);
            assert(s.subrange(j, j + word.len())[1] == s[j + 1]);
            assert(s[j] == head[j]);
            if j + 1 < p {
                assert(s[j + 1] == head[j + 1]);
            }
        }
    }
    lemma_first_occurrence_at(s, word, p);
}

/// The count before a word reads back as the number written there, as
/// `git diff --shortstat` writes it: text, a decimal number, a space, the
/// word.  The text before may hold anything but the word's first two
/// characters side by side, and ends in neither a digit nor the word's
/// first character.
pub proof fn law_stat_count_reads_count_before_word(
    n: u64,
    before: Seq<char>,
    word: Seq<char>,
    rest: Seq<char>,
)
    requires
        word.len() >= 2,
        !is_digit(word[0]),
        word[0] != ' ',
        no_pair(before, word[0], word[1]),
        before.len() == 0 || (!is_digit(before.last()) && before.last() != word[0]),
    ensures
        stat_count(before + decimal(n as nat) + seq![' '] + word + rest, word) == n,
{
    let d = decimal(n as nat);
    lemma_decimal_digits(n as nat);
    lemma_parse_decimal(n as nat, u64::MAX as nat);
    let head = before + d + seq![' '];
    assert forall|i: int| 0 <= i < head.len() - 1 implies !(#[trigger] head[i] == word[0] && head[i
        + 1] == word[1]) by {
        if i < before.len() - 1 {
            assert(head[i] == before[i]);
            assert(head[i + 1] == before[i + 1]);
        } else if i == before.len() - 1 {
            assert(head[i] == before.last());
        } else {
            assert(head[i] == d[i - before.len()]);
            assert(is_digit(d[i - before.len()]));
        }
    }
    lemma_word_first_after_pair(head, word, rest);
    let s = head + word + rest;
    assert(s.take(head.len() as int) =~= head);
    assert(head.drop_last() =~= before + d);
    assert(head.last() == ' ');
    lemma_trailing_digits_concat(before, d);
    assert((before + d).last() == d.last());
    assert(is_digit(d[d.len() - 1]));
    assert(!is_digit(head.last()));
    assert(last_digit_run(head) == last_digit_run(before + d));
    assert(last_digit_run(before + d) == trailing_digits(before + d));
}

/// With a branch and a `--shortstat` line that reports `n > 0` insertions
/// (`insertion` or `insertions`) and no deletions, the widgets are the branch
/// and a diff of `+n -0`.
pub proof fn law_diff_widget_counts_insertions(
    n: u64,
    branch: Seq<char>,
    before: Seq<char>,
    rest: Seq<char>,
)
    requires
        n > 0,
        no_pair(before, 'i', 'n'),
        no_pair(before, 'd', 'e'),
        before.len() == 0 || (!is_digit(before.last()) && before.last() != 'i' && before.last()
            != 'd'),
        no_pair(rest, 'd', 'e'),
    ensures
        git_segments_of(Some(branch), Some(before + decimal(n as nat) + " insertion"@ + rest))
            == seq![branch_segment_of(branch), diff_segment_of(n, 0)],
{
    reveal_strlit(" insertion");
    reveal_strlit("insertion");
    reveal_strlit("deletion");
    let word = seq!['i', 'n', 's', 'e', 'r', 't', 'i', 'o', 'n'];
    let sw = seq![' '] + word;
    assert("insertion"@ =~= word);
    assert(" insertion"@ =~= sw);
    assert("deletion"@ =~= seq!['d', 'e', 'l', 'e', 't', 'i', 'o', 'n']);
    let d = decimal(n as nat);
    lemma_decimal_digits(n as nat);
    let s = before + d + " insertion"@ + rest;
    assert(s =~= before + d + seq![' '] + word + rest);
    law_stat_count_reads_count_before_word(n, before, word, rest);
    assert forall|i: int| 0 <= i < s.len() - 1 implies !(#[trigger] s[i] == 'd' && s[i + 1]
        == 'e') by {
        let b = before.len() as int;
        let e = b + d.len() + sw.len();
        if i < b - 1 {
            assert(s[i] == before[i]);
            assert(s[i + 1] == before[i + 1]);
        } else if i == b - 1 {
            assert(s[i] == before.last());
        } else if i < b + d.len() {
            assert(s[i] == d[i - b]);
            assert(is_digit(d[i - b]));
        } else if i < e {
            assert(s[i] == sw[i - b - d.len()]);
        } else {
            assert(s[i] == rest[i - e]);
            assert(s[i + 1] == rest[i + 1 - e]);
        }
    }
    lemma_absent_by_pair(s, "deletion"@);
    assert(stat_count(s, "deletion"@) == 0);
    assert(stat_count(s, "insertion"@) == n);
}

/// The branch widget: a branch glyph and the trimmed branch name, in blue.
pub open spec fn branch_segment_of(branch: Seq<char>) -> Seq<char> {
    "\x1b[34m\u{e0a0} "@ + trim(branch) + "\x1b[0m"@
}

/// The diff widget: insertions in green, deletions in red.
pub open spec fn diff_segment_of(ins: u64, del: u64) -> Seq<char> {
    "\x1b[32m+"@ + decimal(ins as nat) + "\x1b[0m \x1b[31m-"@ + decimal(del as nat) + "\x1b[0m"@
}

/// Whether `ins + del > 0` as a `u64` sum, which wraps modulo 2^64 in the
/// release build.
pub open spec fn diff_nonzero(ins: u64, del: u64) -> bool {
    (ins + del) % 0x1_0000_0000_0000_0000 != 0
}

/// The widgets that the git outputs give: none without a branch; else the
/// branch, then the diff size when `git diff --shortstat` succeeded and
/// counted any change.
pub open spec fn git_segments_of(branch: Option<Seq<char>>, stat: Option<Seq<char>>) -> Seq<
    Seq<char>,
> {
    match branch {
        None => Seq::empty(),
        Some(b) => {
            let first = seq![branch_segment_of(b)];
            match stat {
                Some(s) => {
                    let ins = stat_count(s, "insertion"@);
                    let del = stat_count(s, "deletion"@);
                    if diff_nonzero(ins, del) {
                        first.push(diff_segment_of(ins, del))
                    } else {
                        first
                    }
                },
                None => first,
            }
        },
    }
}

/// The characters of each string.
pub open spec fn string_views(v: Seq<String>) -> Seq<Seq<char>> {
    v.map_values(|s: String| s@)
}

/// The characters of an optional `&str`.
pub open spec fn opt_str_view(o: Option<&str>) -> Option<Seq<char>> {
    match o {
        Some(s) => Some(s@),
        None => None,
    }
}

/// Appends the git widgets to `segs`, given the output of
/// `git rev-parse --abbrev-ref HEAD` (`None` when it failed) and of
/// `git diff HEAD --shortstat` (`None` when it failed or was not run).
pub fn git_segments(branch: Option<&str>, stat: Option<&str>, segs: &mut Vec<String>)
    ensures
        string_views(final(segs)@) == string_views(old(segs)@) + git_segments_of(
            opt_str_view(branch),
            opt_str_view(stat),
        ),
{
    let ghost start = string_views(segs@);
    let b = match branch {
        Some(b) => b,
        None => {
            assert(string_views(segs@) =~= start + Seq::<Seq<char>>::empty());
            return;
        },
    };
    let bv = chars_of(b);
    let name = trim_chars(&bv);
    let mut seg = String::new();
    push_str(&mut seg, "\x1b[34m\u{e0a0} ");
    let name_s = string_of(&name);
    push_str(&mut seg, name_s.as_str());
    push_str(&mut seg, "\x1b[0m");
    assert(seg@ =~= branch_segment_of(b@));
    segs.push(seg);
    assert(string_views(segs@) =~= start + seq![branch_segment_of(b@)]);
    if let Some(s) = stat {
        let ins = parse_stat(s, "insertion");
        let del = parse_stat(s, "deletion");
        if ins.wrapping_add(del) > 0 {
            let mut d = String::new();
            push_str(&mut d, "\x1b[32m+");
            push_decimal(&mut d, ins);
            push_str(&mut d, "\x1b[0m \x1b[31m-");
            push_decimal(&mut d, del);
            push_str(&mut d, "\x1b[0m");
            assert(d@ =~= diff_segment_of(ins, del));
            let ghost mid = string_views(segs@);
            segs.push(d);
            assert(string_views(segs@) =~= mid.push(diff_segment_of(ins, del)));
        }
    }
}

} // verus!
