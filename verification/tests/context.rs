use ccline::context::usage_lines_newest_first;

#[test]
fn usage_lines_newest_first_order() {
    let content = "{\"usage\":1}\n{\"other\":2}\n{\"message\":{\"usage\":3}}\r\nusage\n";
    assert_eq!(
        usage_lines_newest_first(content),
        vec!["{\"message\":{\"usage\":3}}".to_string(), "{\"usage\":1}".to_string()]
    );
    assert!(usage_lines_newest_first("").is_empty());
}
