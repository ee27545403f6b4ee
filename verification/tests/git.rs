use ccline::git::{git_dir, git_segments, parse_stat, repo_name};
use ccline::input::StatusInput;

fn input(project: Option<&str>, current: Option<&str>, cwd: Option<&str>) -> StatusInput {
    StatusInput {
        model_display_name: None,
        version: None,
        session_id: None,
        project_dir: project.map(String::from),
        current_dir: current.map(String::from),
        cwd: cwd.map(String::from),
    }
}

#[test]
fn parse_stat_reads_counts() {
    let s = " 3 files changed, 10 insertions(+), 2 deletions(-)\n";
    assert_eq!(parse_stat(s, "insertion"), 10);
    assert_eq!(parse_stat(s, "deletion"), 2);
    assert_eq!(parse_stat(s, "file"), 3);
}

#[test]
fn parse_stat_missing_word_or_number_is_zero() {
    assert_eq!(parse_stat(" 1 file changed, 1 deletion(-)\n", "insertion"), 0);
    assert_eq!(parse_stat("insertion", "insertion"), 0);
    assert_eq!(parse_stat("", "deletion"), 0);
    assert_eq!(parse_stat("99999999999999999999 insertions", "insertion"), 0);
}

#[test]
fn parse_stat_uses_first_occurrence_and_last_digit_run() {
    assert_eq!(parse_stat("a12b34 insertion, 5 insertion", "insertion"), 34);
    assert_eq!(parse_stat("7 insertion", ""), 0);
}

#[test]
fn repo_name_prefers_project_dir() {
    assert_eq!(
        repo_name(&input(Some("/home/u/proj"), Some("/home/u/proj/src"), Some("/tmp"))),
        Some("proj".to_string())
    );
    assert_eq!(repo_name(&input(None, Some("/home/u/other/"), Some("/tmp"))), Some("other".to_string()));
    assert_eq!(repo_name(&input(None, None, Some("/tmp/x"))), Some("x".to_string()));
    assert_eq!(repo_name(&input(None, None, None)), None);
}

#[test]
fn repo_name_absent_without_final_component() {
    assert_eq!(repo_name(&input(Some("/"), None, None)), None);
    assert_eq!(repo_name(&input(Some(""), None, None)), None);
    assert_eq!(repo_name(&input(Some("/a/.."), Some("/b"), None)), None);
}

#[test]
fn git_dir_prefers_current_dir() {
    assert_eq!(git_dir(&input(Some("/p"), Some("/c"), Some("/w"))), "/c");
    assert_eq!(git_dir(&input(Some("/p"), None, Some("/w"))), "/w");
    assert_eq!(git_dir(&input(Some("/p"), None, None)), ".");
}

#[test]
fn git_segments_branch_and_diff() {
    let mut segs = vec!["x".to_string()];
    git_segments(Some("main\n"), Some(" 1 file changed, 5 insertions(+), 2 deletions(-)\n"), &mut segs);
    assert_eq!(
        segs,
        vec![
            "x".to_string(),
            "\x1b[34m\u{e0a0} main\x1b[0m".to_string(),
            "\x1b[32m+5\x1b[0m \x1b[31m-2\x1b[0m".to_string(),
        ]
    );
}

#[test]
fn git_segments_without_branch_or_changes() {
    let mut segs = Vec::new();
    git_segments(None, Some(" 1 file changed, 5 insertions(+)"), &mut segs);
    assert!(segs.is_empty());
    git_segments(Some("dev"), Some(""), &mut segs);
    assert_eq!(segs, vec!["\x1b[34m\u{e0a0} dev\x1b[0m".to_string()]);
    let mut segs2 = Vec::new();
    git_segments(Some("dev"), None, &mut segs2);
    assert_eq!(segs2.len(), 1);
    let mut segs3 = Vec::new();
    git_segments(Some("dev"), Some(" 1 file changed, 1 deletion(-)"), &mut segs3);
    assert_eq!(segs3[1], "\x1b[32m+0\x1b[0m \x1b[31m-1\x1b[0m");
}
