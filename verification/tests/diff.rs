use agentsmd::diff::{style_diff, unified_diff_lines, DiffLine, LineStyle};

fn line(style: LineStyle, text: &str) -> DiffLine {
    DiffLine {
        style,
        text: text.to_string(),
    }
}

#[test]
fn a_changed_line_gives_a_header_a_hunk_and_both_lines() {
    let lines = unified_diff_lines("keep\nold\n", "keep\nnew\n", "AGENTS.md");
    assert_eq!(
        lines,
        vec![
            line(LineStyle::Header, "--- a/AGENTS.md"),
            line(LineStyle::Header, "+++ b/AGENTS.md"),
            line(LineStyle::Hunk, "@@ -1,2 +1,2 @@"),
            line(LineStyle::Context, " keep"),
            line(LineStyle::Removed, "-old"),
            line(LineStyle::Added, "+new"),
        ]
    );
}

#[test]
fn equal_texts_give_no_lines() {
    assert_eq!(unified_diff_lines("same\n", "same\n", "AGENTS.md"), Vec::<DiffLine>::new());
    assert_eq!(unified_diff_lines("", "", "x"), Vec::<DiffLine>::new());
}

#[test]
fn context_is_three_lines() {
    let old = "1\n2\n3\n4\n5\n6\n7\n8\n9\n";
    let new = "1\n2\n3\n4\nfive\n6\n7\n8\n9\n";
    let lines = unified_diff_lines(old, new, "f");
    let texts: Vec<&str> = lines.iter().map(|l| l.text.as_str()).collect();
    assert_eq!(
        texts,
        vec![
            "--- a/f", "+++ b/f", "@@ -2,7 +2,7 @@", " 2", " 3", " 4", "-5", "+five", " 6", " 7",
            " 8"
        ]
    );
}

#[test]
fn styles_go_by_the_start_of_the_line() {
    let styled = style_diff("--- a\n+++ b\n@@ -1 +1 @@\n+x\n-y\n z\n\n++\n--\n@\n---\n+++x\n");
    let styles: Vec<LineStyle> = styled.iter().map(|l| l.style).collect();
    assert_eq!(
        styles,
        vec![
            LineStyle::Header,
            LineStyle::Header,
            LineStyle::Hunk,
            LineStyle::Added,
            LineStyle::Removed,
            LineStyle::Context,
            LineStyle::Context,
            LineStyle::Added,
            LineStyle::Removed,
            LineStyle::Context,
            LineStyle::Header,
            LineStyle::Header,
        ]
    );
}

#[test]
fn lines_end_at_line_feeds() {
    let texts = |s: &str| -> Vec<String> { style_diff(s).into_iter().map(|l| l.text).collect() };
    assert_eq!(texts(""), Vec::<String>::new());
    assert_eq!(texts("a"), vec!["a"]);
    assert_eq!(texts("a\n"), vec!["a"]);
    assert_eq!(texts("a\nb"), vec!["a", "b"]);
    assert_eq!(texts("a\n\nb\n"), vec!["a", "", "b"]);
    assert_eq!(texts("\n"), vec![""]);
    assert_eq!(texts("a\r\nb\r\n"), vec!["a", "b"]);
    // A carriage return without a line feed belongs to its line.
    assert_eq!(texts("a\rb\nc\r"), vec!["a\rb", "c\r"]);
    assert_eq!(texts("a\r\r\n"), vec!["a\r"]);
    for s in ["", "x", "x\n", "x\r\n\r\ny", "\r", "\r\n", "\n\n", "a\rb\r\nc\n\rd"] {
        let expected: Vec<String> = s.lines().map(|l| l.to_string()).collect();
        assert_eq!(texts(s), expected, "{s:?}");
    }
}
