use doclinker::clock::{millis_from, seconds_from};
use doclinker::db::needs_alias_column;
use doclinker::models::{FileKind, WorkspaceKind};
use doclinker::text::{chars_of, eq_ignore_ascii_case, join_strings, split_lines, to_ascii_lowercase, trim_to_string};

#[test]
fn kind_names() {
    assert_eq!(WorkspaceKind::Project.as_str(), "project");
    assert_eq!(WorkspaceKind::Doc.as_str(), "doc");
    assert_eq!(WorkspaceKind::Scripts.as_str(), "scripts");
    assert_eq!(FileKind::Markdown.as_str(), "markdown");
    assert_eq!(FileKind::Text.as_str(), "text");
    assert_eq!(FileKind::Executable.as_str(), "executable");
    assert_eq!(FileKind::Url.as_str(), "url");
}

#[test]
fn alias_column_migration() {
    let with: Vec<String> = vec!["id".into(), "alias".into()];
    let without: Vec<String> = vec!["id".into(), "title".into()];
    assert!(!needs_alias_column(&with));
    assert!(needs_alias_column(&without));
    assert!(needs_alias_column(&Vec::new()));
}

#[test]
fn text_primitives_match_std() {
    let samples = ["", "a", "\n", "a\nb", "a\r\nb\r\n", "x\r\r\n\ny", " \u{a0}mid\u{2003} ", "Hé LLO", "a\r", "\r", "x\r\ny\r"];
    for s in samples {
        let v = chars_of(s);
        let got: Vec<String> = split_lines(&v).iter().map(|(a, b)| v[*a..*b].iter().collect()).collect();
        let want: Vec<String> = s.lines().map(|l| l.to_string()).collect();
        assert_eq!(got, want, "lines of {s:?}");
        assert_eq!(trim_to_string(s), s.trim(), "trim of {s:?}");
        assert_eq!(to_ascii_lowercase(s), s.to_ascii_lowercase());
    }
    assert!(eq_ignore_ascii_case("ReadMe", "README"));
    assert!(!eq_ignore_ascii_case("é", "É"));
    assert_eq!(join_strings(&vec!["a".into(), "b".into()], ", "), "a, b");
    assert_eq!(join_strings(&Vec::new(), ", "), "");
}

#[test]
fn clock_readings() {
    assert_eq!(millis_from(None), 0);
    assert_eq!(millis_from(Some(1234)), 1234);
    assert_eq!(seconds_from(None), 0);
    assert_eq!(seconds_from(Some(1999)), 1);
    assert_eq!(seconds_from(Some(1_700_000_000_999)), 1_700_000_000);
}
