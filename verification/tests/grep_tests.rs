use rig_tools::grep::{compile_line_pattern, truncate_line, GrepError, GrepOptions, GrepReport, GrepSearch};
use rig_tools::GrepArgs;

fn args(pattern: &str) -> GrepArgs {
    GrepArgs { pattern: pattern.to_string(), path: None, glob: None, ignore_case: None, literal: None, context: None, max_results: None }
}

fn report_text(r: GrepReport) -> (String, bool) {
    match r {
        GrepReport::Matches { text, truncated } => (text, truncated),
        GrepReport::NoMatches => panic!("expected matches"),
    }
}

#[test]
fn grep_defaults() {
    let o = args("x").options();
    assert_eq!(o, GrepOptions { ignore_case: false, literal: false, max_results: 100, context: 0 });
}

#[test]
fn grep_lists_matching_lines() {
    let o = args("fo+").options();
    let p = compile_line_pattern("fo+", o.literal, o.ignore_case).ok().unwrap();
    let s = GrepSearch::new(o).scan_file("src/a.rs", "foo\nbar\nfooo\n", &p).ok().unwrap();
    let (text, truncated) = report_text(s.finish());
    assert_eq!(text, "src/a.rs:1:foo\nsrc/a.rs:3:fooo");
    assert!(!truncated);
}

#[test]
fn grep_stops_at_limit() {
    let mut a = args("x");
    a.max_results = Some(2);
    let o = a.options();
    let p = compile_line_pattern("x", false, false).ok().unwrap();
    let s = GrepSearch::new(o).scan_file("f", "x1\nx2\nx3", &p).ok().unwrap();
    assert!(s.is_full());
    let (text, truncated) = report_text(s.finish());
    assert_eq!(text, "f:1:x1\nf:2:x2");
    assert!(truncated);
}

#[test]
fn grep_with_context() {
    let mut a = args("c");
    a.context = Some(1);
    let o = a.options();
    let p = compile_line_pattern("c", false, false).ok().unwrap();
    let s = GrepSearch::new(o).scan_file("f", "a\nb\nc\nd", &p).ok().unwrap();
    let (text, _) = report_text(s.finish());
    assert_eq!(text, " 2: b\n>3: c\n 4: d\nf:3\n--");
}

#[test]
fn grep_literal_and_case() {
    let p = compile_line_pattern("a.b", true, false).ok().unwrap();
    let o = GrepOptions { ignore_case: false, literal: true, max_results: 10, context: 0 };
    let s = GrepSearch::new(o).scan_file("f", "axb\na.b", &p).ok().unwrap();
    assert_eq!(report_text(s.finish()).0, "f:2:a.b");
    let p = compile_line_pattern("HELLO", false, true).ok().unwrap();
    let s = GrepSearch::new(o).scan_file("f", "hello", &p).ok().unwrap();
    assert_eq!(report_text(s.finish()).0, "f:1:hello");
}

#[test]
fn grep_invalid_pattern() {
    assert!(compile_line_pattern("(", false, false).is_err());
    assert!(compile_line_pattern("(", true, false).is_ok());
}

#[test]
fn grep_no_matches() {
    let p = compile_line_pattern("zzz", false, false).ok().unwrap();
    let s = GrepSearch::new(args("zzz").options()).scan_file("f", "abc", &p).ok().unwrap();
    assert!(matches!(s.finish(), GrepReport::NoMatches));
}

#[test]
fn truncate_long_lines() {
    let long = "a".repeat(600);
    assert_eq!(truncate_line(&long).len(), 500);
    assert_eq!(truncate_line("short"), "short");
}

#[test]
fn grep_refuses_cut_inside_character() {
    let line = format!("{}é", "a".repeat(499));
    let p = compile_line_pattern("a", false, false).ok().unwrap();
    let r = GrepSearch::new(args("a").options()).scan_file("f", &line, &p);
    assert!(matches!(r, Err(GrepError::LineCutInsideChar)));
}
