use rig_tools::glob::{GlobCollector, GlobListing, GlobPattern};
use rig_tools::ls::{entry_label, listing, LsListing};
use rig_tools::paths::search_root;
use rig_tools::{GlobArgs, LsArgs};

#[test]
fn glob_collects_sorted_matches() {
    let p = GlobPattern::new("*.rs").ok().unwrap();
    let mut c = GlobCollector::new(1000);
    for path in ["src/b.rs", "README.md", "a.rs", "src/A.rs"] {
        assert!(!c.offer(path, &p));
    }
    match c.finish() {
        GlobListing::Paths { text, truncated } => {
            assert_eq!(text, "a.rs\nsrc/A.rs\nsrc/b.rs");
            assert!(!truncated);
        }
        GlobListing::NoMatches => panic!("expected paths"),
    }
}

#[test]
fn glob_stops_at_limit() {
    let p = GlobPattern::new("*").ok().unwrap();
    let mut c = GlobCollector::new(2);
    assert!(!c.offer("z", &p));
    assert!(c.offer("y", &p));
    match c.finish() {
        GlobListing::Paths { text, truncated } => {
            assert_eq!(text, "y\nz");
            assert!(truncated);
        }
        GlobListing::NoMatches => panic!("expected paths"),
    }
}

#[test]
fn glob_invalid_and_empty() {
    assert!(GlobPattern::new("a[").is_err());
    let p = GlobPattern::new("*.md").ok().unwrap();
    let mut c = GlobCollector::new(5);
    c.offer("x.rs", &p);
    assert!(matches!(c.finish(), GlobListing::NoMatches));
    let a = GlobArgs { pattern: "*".to_string(), path: None, max_results: None };
    assert_eq!(a.limit(), 1000);
}

#[test]
fn ls_sorts_case_insensitively_and_truncates() {
    let labels = vec![entry_label("b.txt", false), entry_label("Docs", true), entry_label("a", false), entry_label("C", false)];
    match listing(&labels, 3) {
        LsListing::Entries { text, truncated } => {
            assert_eq!(text, "a\nb.txt\nC");
            assert!(truncated);
        }
        LsListing::Empty => panic!("expected entries"),
    }
    match listing(&labels, 10) {
        LsListing::Entries { text, truncated } => {
            assert_eq!(text, "a\nb.txt\nC\nDocs/");
            assert!(!truncated);
        }
        LsListing::Empty => panic!("expected entries"),
    }
    assert!(matches!(listing(&vec![], 3), LsListing::Empty));
}

#[test]
fn ls_keeps_order_of_equal_keys() {
    let labels = vec!["B".to_string(), "b".to_string(), "a".to_string()];
    match listing(&labels, 10) {
        LsListing::Entries { text, .. } => assert_eq!(text, "a\nB\nb"),
        LsListing::Empty => panic!("expected entries"),
    }
    let a = LsArgs { path: None, max_results: None };
    assert_eq!(a.limit(), 500);
}

#[test]
fn search_root_choices() {
    let wd = "/w".to_string();
    let p = "sub".to_string();
    assert_eq!(search_root(Some(&p), Some(&wd)), "/w/sub");
    assert_eq!(search_root(None, Some(&wd)), "/w");
    assert_eq!(search_root(None, None), ".");
}

#[test]
fn glob_too_large_to_compile_is_an_error() {
    let huge = "?".repeat(1_000_000);
    let r = GlobPattern::new(&huge);
    assert!(r.is_err());
    assert!(!r.err().unwrap().is_empty());
}
