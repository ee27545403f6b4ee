//! The status line itself: the text of each widget and how widgets join.
//!
//! Widgets whose data is unavailable are simply omitted; the rest appear in
//! a fixed order, separated by a dimmed bar.

use vstd::prelude::*;

use crate::git::{
    git_segments, git_segments_of, opt_str_view, repo_name, repo_name_of, string_views,
};
use crate::input::{opt_view, StatusInput};
use crate::text::push_str;

verus! {

/// Dim text: `ESC[2m` before and a reset after.
pub open spec fn dim_of(s: Seq<char>) -> Seq<char> {
    "\x1b[2m"@ + s + "\x1b[0m"@
}

/// The given text, dimmed.
pub fn dim(s: &str) -> (r: String)
    ensures
        r@ == dim_of(s@),
{
    let mut r = String::new();
    push_str(&mut r, "\x1b[2m");
    push_str(&mut r, s);
    push_str(&mut r, "\x1b[0m");
    assert(r@ =~= dim_of(s@));
    r
}

/// `s` between an SGR start sequence and a reset.
pub open spec fn styled_of(start: Seq<char>, s: Seq<char>) -> Seq<char> {
    start + s + "\x1b[0m"@
}

/// `s` between the SGR sequence `start` and a reset.
pub fn styled(start: &str, s: &str) -> (r: String)
    ensures
        r@ == styled_of(start@, s@),
{
    let mut r = String::new();
    push_str(&mut r, start);
    push_str(&mut r, s);
    push_str(&mut r, "\x1b[0m");
    assert(r@ =~= styled_of(start@, s@));
    r
}

/// The separator between widgets.
pub open spec fn separator_of() -> Seq<char> {
    dim_of(" │ "@)
}

/// The segments joined by `sep` (`[T]::join`).
pub open spec fn join_of(segs: Seq<Seq<char>>, sep: Seq<char>) -> Seq<char>
    decreases segs.len(),
{
    if segs.len() == 0 {
        Seq::empty()
    } else if segs.len() == 1 {
        segs[0]
    } else {
        join_of(segs.drop_last(), sep) + sep + segs.last()
    }
}

/// The widgets joined into one line by the dimmed separator.
pub fn join_segments(segs: &Vec<String>) -> (r: String)
    ensures
        r@ == join_of(string_views(segs@), separator_of()),
{
    let sep = dim(" │ ");
    let ghost sv = string_views(segs@);
    let mut r = String::new();
    assert(sv.take(0) =~= Seq::<Seq<char>>::empty());
    for i in 0..segs.len()
        invariant
            sv == string_views(segs@),
            sep@ == separator_of(),
            r@ == join_of(sv.take(i as int), separator_of()),
    {
        assert(sv.take(i + 1).drop_last() =~= sv.take(i as int));
        assert(sv.take(i + 1).last() == segs@[i as int]@);
        if i > 0 {
            push_str(&mut r, sep.as_str());
        }
        push_str(&mut r, segs[i].as_str());
        if i == 0 {
            assert(r@ =~= join_of(sv.take(1), separator_of()));
        }
    }
    assert(sv.take(segs@.len() as int) =~= sv);
    r
}

/// An optional widget: one segment when present, none otherwise.
pub open spec fn optional(s: Option<Seq<char>>) -> Seq<Seq<char>> {
    match s {
        Some(x) => seq![x],
        None => Seq::empty(),
    }
}

/// An optional value, styled.
pub open spec fn optional_styled(start: Seq<char>, s: Option<Seq<char>>) -> Seq<Seq<char>> {
    match s {
        Some(x) => seq![styled_of(start, x)],
        None => Seq::empty(),
    }
}

/// The version widget: `v` and the version, dimmed.
pub open spec fn version_widget(v: Option<Seq<char>>) -> Seq<Seq<char>> {
    match v {
        Some(x) => seq![dim_of("v"@ + x)],
        None => Seq::empty(),
    }
}

/// The widgets, left to right: model, version, session name, context,
/// usage, repository, git branch and diff; each only when its data exists.
pub open spec fn line_segments_of(
    d: StatusInput,
    session_name: Option<Seq<char>>,
    context: Option<Seq<char>>,
    usage: Seq<Seq<char>>,
    branch: Option<Seq<char>>,
    stat: Option<Seq<char>>,
) -> Seq<Seq<char>> {
    optional_styled("\x1b[1;36m"@, opt_view(d.model_display_name)) + version_widget(
        opt_view(d.version),
    ) + optional_styled("\x1b[35m"@, session_name) + optional(context) + usage + optional_styled(
        "\x1b[1;34m"@,
        repo_name_of(d),
    ) + git_segments_of(branch, stat)
}

/// Appends `start`-styled `s` to `segs` when `s` is present.
fn push_styled(segs: &mut Vec<String>, start: &str, s: Option<&str>)
    ensures
        string_views(final(segs)@) == string_views(old(segs)@) + optional_styled(
            start@,
            opt_str_view(s),
        ),
{
    let ghost before = string_views(segs@);
    match s {
        Some(x) => {
            let seg = styled(start, x);
            segs.push(seg);
            assert(string_views(segs@) =~= before + seq![styled_of(start@, x@)]);
        },
        None => {
            assert(string_views(segs@) =~= before + Seq::<Seq<char>>::empty());
        },
    }
}

/// The characters of an optional string, as an optional `&str`.
fn as_opt_str(o: &Option<String>) -> (r: Option<&str>)
    ensures
        opt_str_view(r) == opt_view(*o),
{
    match o {
        Some(s) => Some(s.as_str()),
        None => None,
    }
}

/// The whole status line.  The caller supplies what takes I/O or floating
/// point: the cached session name, the context widget, the usage widgets,
/// and the outputs of the two git commands.
pub fn render_line(
    data: &StatusInput,
    session_name: Option<&str>,
    context_segment: Option<&str>,
    usage_segments: &Vec<String>,
    branch: Option<&str>,
    stat: Option<&str>,
) -> (r: String)
    ensures
        r@ == join_of(
            line_segments_of(
                *data,
                opt_str_view(session_name),
                opt_str_view(context_segment),
                string_views(usage_segments@),
                opt_str_view(branch),
                opt_str_view(stat),
            ),
            separator_of(),
        ),
{
    let mut segs: Vec<String> = Vec::new();
    assert(string_views(segs@) =~= Seq::<Seq<char>>::empty());
    push_styled(&mut segs, "\x1b[1;36m", as_opt_str(&data.model_display_name));
    let ghost s1 = string_views(segs@);
    match &data.version {
        Some(v) => {
            let mut t = String::new();
            push_str(&mut t, "v");
            push_str(&mut t, v.as_str());
            let seg = dim(t.as_str());
            segs.push(seg);
            assert(string_views(segs@) =~= s1 + version_widget(opt_view(data.version)));
        },
        None => {
            assert(string_views(segs@) =~= s1 + version_widget(opt_view(data.version)));
        },
    }
    push_styled(&mut segs, "\x1b[35m", session_name);
    let ghost s3 = string_views(segs@);
    match context_segment {
        Some(c) => {
            let mut t = String::new();
            push_str(&mut t, c);
            segs.push(t);
        },
        None => {},
    }
    assert(string_views(segs@) =~= s3 + optional(opt_str_view(context_segment)));
    let ghost s4 = string_views(segs@);
    for i in 0..usage_segments.len()
        invariant
            string_views(segs@) == s4 + string_views(usage_segments@).take(i as int),
    {
        let ghost before = string_views(segs@);
        segs.push(usage_segments[i].clone());
        assert(string_views(segs@) =~= before.push(usage_segments@[i as int]@));
        assert(string_views(usage_segments@).take(i + 1) =~= string_views(usage_segments@).take(
            i as int,
        ).push(usage_segments@[i as int]@));
    }
    assert(string_views(usage_segments@).take(usage_segments@.len() as int) =~= string_views(
        usage_segments@,
    ));
    let repo = repo_name(data);
    push_styled(&mut segs, "\x1b[1;34m", as_opt_str(&repo));
    git_segments(branch, stat, &mut segs);
    assert(string_views(segs@) =~= line_segments_of(
        *data,
        opt_str_view(session_name),
        opt_str_view(context_segment),
        string_views(usage_segments@),
        opt_str_view(branch),
        opt_str_view(stat),
    ));
    join_segments(&segs)
}


/// The repository widget depends on the payload alone: the git outputs only
/// add their own widgets at the end of the line.
pub proof fn law_git_widgets_only_append(
    d: StatusInput,
    session_name: Option<Seq<char>>,
    context: Option<Seq<char>>,
    usage: Seq<Seq<char>>,
    branch: Option<Seq<char>>,
    stat: Option<Seq<char>>,
)
    ensures
        line_segments_of(d, session_name, context, usage, branch, stat) == line_segments_of(
            d,
            session_name,
            context,
            usage,
            None,
            None,
        ) + git_segments_of(branch, stat),
{
    assert(git_segments_of(None, None) =~= Seq::<Seq<char>>::empty());
    assert(line_segments_of(d, session_name, context, usage, branch, stat) =~= line_segments_of(
        d,
        session_name,
        context,
        usage,
        None,
        None,
    ) + git_segments_of(branch, stat));
}

/// Whenever the project has a name, the line shows it as the repository
/// widget, with or without git, right before the git widgets.
pub proof fn law_repo_widget_shown(
    d: StatusInput,
    session_name: Option<Seq<char>>,
    context: Option<Seq<char>>,
    usage: Seq<Seq<char>>,
    branch: Option<Seq<char>>,
    stat: Option<Seq<char>>,
)
    requires
        repo_name_of(d) is Some,
    ensures
        ({
            let segs = line_segments_of(d, session_name, context, usage, branch, stat);
            let g = git_segments_of(branch, stat);
            segs.len() > g.len() && segs[segs.len() - g.len() - 1] == styled_of(
                "\x1b[1;34m"@,
                repo_name_of(d)->0,
            )
        }),
{
    let segs = line_segments_of(d, session_name, context, usage, branch, stat);
    let g = git_segments_of(branch, stat);
    let head = optional_styled("\x1b[1;36m"@, opt_view(d.model_display_name)) + version_widget(
        opt_view(d.version),
    ) + optional_styled("\x1b[35m"@, session_name) + optional(context) + usage;
    let repo = seq![styled_of("\x1b[1;34m"@, repo_name_of(d)->0)];
    assert(segs =~= head + repo + g);
    assert(segs[segs.len() - g.len() - 1] == (head + repo)[head.len() as int]);
}
} // verus!
