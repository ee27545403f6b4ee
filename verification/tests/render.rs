use ccline::input::StatusInput;
use ccline::render::{dim, join_segments, render_line, styled};

fn data() -> StatusInput {
    StatusInput {
        model_display_name: Some("Fable 5".into()),
        version: Some("2.1.252".into()),
        session_id: None,
        project_dir: Some("/home/u/ccline".into()),
        current_dir: None,
        cwd: None,
    }
}

#[test]
fn dim_and_styled() {
    assert_eq!(dim("x"), "\x1b[2mx\x1b[0m");
    assert_eq!(styled("\x1b[35m", "n"), "\x1b[35mn\x1b[0m");
}

#[test]
fn join_uses_dim_separator() {
    assert_eq!(join_segments(&vec![]), "");
    assert_eq!(join_segments(&vec!["a".into()]), "a");
    assert_eq!(join_segments(&vec!["a".into(), "b".into()]), "a\x1b[2m │ \x1b[0mb");
}

#[test]
fn full_line_in_widget_order() {
    let usage = vec!["U1".to_string(), "U2".to_string()];
    let line = render_line(&data(), Some("src-09"), Some("CTX"), &usage, Some("main\n"), Some(" 1 file changed, 5 insertions(+), 2 deletions(-)"));
    let sep = "\x1b[2m │ \x1b[0m";
    let want = [
        "\x1b[1;36mFable 5\x1b[0m",
        "\x1b[2mv2.1.252\x1b[0m",
        "\x1b[35msrc-09\x1b[0m",
        "CTX",
        "U1",
        "U2",
        "\x1b[1;34mccline\x1b[0m",
        "\x1b[34m\u{e0a0} main\x1b[0m",
        "\x1b[32m+5\x1b[0m \x1b[31m-2\x1b[0m",
    ]
    .join(sep);
    assert_eq!(line, want);
}

#[test]
fn missing_widgets_are_omitted() {
    let empty = StatusInput {
        model_display_name: None,
        version: None,
        session_id: None,
        project_dir: None,
        current_dir: None,
        cwd: None,
    };
    assert_eq!(render_line(&empty, None, None, &vec![], None, Some("1 insertion")), "");
    assert_eq!(render_line(&empty, None, Some("CTX"), &vec![], None, None), "CTX");
}
