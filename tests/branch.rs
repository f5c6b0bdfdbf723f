use switchbot::branch;

fn fields(a: &str, b: &str, c: &str) -> Option<(String, String, String)> {
    Some((a.to_string(), b.to_string(), c.to_string()))
}

#[test]
fn parse_if_expr() {
    assert_eq!(branch::parse_if_expr(""), None);
    assert_eq!(branch::parse_if_expr("a"), None);
    assert_eq!(branch::parse_if_expr("if"), None);
    assert_eq!(branch::parse_if_expr("if/a"), None);
    assert_eq!(branch::parse_if_expr("if/a/b"), fields("a", "b", ""));
    assert_eq!(branch::parse_if_expr("if/a/b/c"), fields("a", "b", "c"));
    assert_eq!(branch::parse_if_expr("if/a//c"), fields("a", "", "c"));
    // The separator can be any characters as long as they're consistent.
    assert_eq!(branch::parse_if_expr("if;a;b;c"), fields("a", "b", "c"));
    assert_eq!(branch::parse_if_expr("if.a.b.c"), fields("a", "b", "c"));
    // But non-alphanumeric.
    assert_eq!(branch::parse_if_expr("ifXaXbXc"), None);
}

#[test]
fn branch_field_counts() {
    assert_eq!(branch::parse_if_expr("if/a/b/"), fields("a", "b", ""));
    assert_eq!(branch::parse_if_expr("if/a/b/c/d"), None);
    assert_eq!(branch::parse_if_expr("if/"), None);
    assert_eq!(branch::parse_if_expr("if1a1b"), None);
    assert_eq!(branch::parse_if_expr("ifé/a/b"), None);
}
