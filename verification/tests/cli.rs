use ccline::cli::{parse_command, CliCommand};

fn args(a: &[&str]) -> Vec<String> {
    a.iter().map(|s| s.to_string()).collect()
}

#[test]
fn modes() {
    assert!(matches!(parse_command(&args(&["ccline"])), CliCommand::Render));
    assert!(matches!(parse_command(&args(&[])), CliCommand::Render));
    assert!(matches!(parse_command(&args(&["ccline", "--refresh-usage"])), CliCommand::RefreshUsage));
    assert!(matches!(parse_command(&args(&["ccline", "update"])), CliCommand::Update));
    assert!(matches!(parse_command(&args(&["ccline", "--update"])), CliCommand::Update));
    assert!(matches!(parse_command(&args(&["ccline", "-V"])), CliCommand::Version));
    assert!(matches!(parse_command(&args(&["ccline", "--version", "x"])), CliCommand::Version));
    assert!(matches!(parse_command(&args(&["ccline", "--help"])), CliCommand::Render));
}

#[test]
fn refresh_session_name_takes_optional_id() {
    match parse_command(&args(&["ccline", "--refresh-session-name", "abc"])) {
        CliCommand::RefreshSessionName(Some(s)) => assert_eq!(s, "abc"),
        _ => panic!("wrong mode"),
    }
    assert!(matches!(
        parse_command(&args(&["ccline", "--refresh-session-name"])),
        CliCommand::RefreshSessionName(None)
    ));
}
