use switchbot::{CommandHelp, CommandRequest, Markdown, Section};

fn to_plain_text(markdown: &str) -> String {
    Markdown::new(markdown).plain_text()
}

fn to_table_columns(line: &str) -> Option<Vec<String>> {
    Markdown::table_columns(line)
}

fn strings(v: &[&str]) -> Option<Vec<String>> {
    Some(v.iter().map(|s| s.to_string()).collect())
}

#[test]
fn em() {
    assert_eq!(Markdown::em("*a*"), Some("a".to_string()));
    assert_eq!(Markdown::em("x*a*x"), Some("a".to_string()));

    assert_eq!(Markdown::em("a"), None);
    assert_eq!(Markdown::em("*a"), None);
    assert_eq!(Markdown::em("a*"), None);

    assert_eq!(
        Markdown::em("device type. *Hub*, *Hub Plus*, *Hub Mini*, *Hub 2* or *Hub 3*."),
        Some("Hub".to_string())
    );
}

#[test]
fn em_skips_empty_emphasis() {
    assert_eq!(Markdown::em("**a*"), Some("a".to_string()));
    assert_eq!(Markdown::em("**"), None);
}

#[test]
fn plain_text() {
    assert_eq!(to_plain_text(""), "");

    assert_eq!(to_plain_text("<br>"), "\n");
    assert_eq!(to_plain_text("<br/>"), "\n");
    assert_eq!(to_plain_text("<br />"), "\n");
    assert_eq!(to_plain_text("<BR>"), "\n");

    assert_eq!(to_plain_text("a<br>b"), "a\nb");

    assert_eq!(to_plain_text("a<br>b<br>c"), "a\nb\nc");
}

#[test]
fn plain_text_keeps_other_tags() {
    assert_eq!(to_plain_text("<b>x</b>"), "<b>x</b>");
    assert_eq!(to_plain_text("<br"), "<br");
    assert_eq!(Markdown::new("a<br>b").markdown(), "a<br>b");
}

#[test]
fn table_columns() {
    assert_eq!(to_table_columns("1|2|3"), None);
    assert_eq!(to_table_columns("|1|2|3|"), strings(&["1", "2", "3"]));
    assert_eq!(to_table_columns("| 1 | 2 | 3 |"), strings(&["1", "2", "3"]));
}

#[test]
fn section_update() {
    let mut section = Section::default();
    assert_eq!(section, Section::Initial);
    assert!(section.update("## Devices"));
    assert_eq!(section, Section::Devices);
}

#[test]
fn section_ignores_other_lines() {
    let mut section = Section::Commands;
    assert!(!section.update("## Device"));
    assert_eq!(section, Section::Commands);
    assert!(section.update("#### Command set for virtual infrared remote devices"));
    assert_eq!(section, Section::CommandsIR);
}

#[test]
fn command_help_parts() {
    let help = CommandHelp::new(CommandRequest::parse("turnOn"), Markdown::new("on<br>now"));
    assert_eq!(help.command().command, "turnOn");
    assert_eq!(help.description().plain_text(), "on\nnow");
}
