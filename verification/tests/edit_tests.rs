use rig_tools::edit_file::{apply_edits, diff_text, render_changes, DiffTag, EditError};
use rig_tools::{EditFileArgs, EditOperation};

fn op(old: &str, new: &str) -> EditOperation {
    EditOperation { old_string: old.to_string(), new_string: new.to_string() }
}

#[test]
fn edit_replaces_first_occurrence_only() {
    let out = apply_edits("a-b-a", &vec![op("a", "X")]).ok().unwrap();
    assert_eq!(out, "X-b-a");
}

#[test]
fn edits_apply_in_order() {
    let out = apply_edits("one two", &vec![op("one", "two"), op("two", "three")]).ok().unwrap();
    assert_eq!(out, "three two");
}

#[test]
fn edit_not_found_is_refused() {
    assert!(matches!(apply_edits("abc", &vec![op("zz", "y")]), Err(EditError::NotFound)));
    assert!(matches!(apply_edits("abc", &vec![op("a", "b"), op("a", "c")]), Err(EditError::NotFound)));
}

#[test]
fn edit_with_same_text_keeps_content() {
    assert_eq!(apply_edits("héllo wörld", &vec![op("wörld", "wörld")]).ok().unwrap(), "héllo wörld");
}

#[test]
fn edit_empty_old_inserts_at_start() {
    assert_eq!(apply_edits("abc", &vec![op("", ">")]).ok().unwrap(), ">abc");
}

#[test]
fn edit_operations_from_args() {
    let single = EditFileArgs {
        path: "f".to_string(),
        old_string: Some("a".to_string()),
        new_string: Some("b".to_string()),
        edits: None,
    };
    let ops = single.operations().ok().unwrap();
    assert_eq!(ops.len(), 1);
    assert_eq!(ops[0].old_string, "a");
    assert_eq!(ops[0].new_string, "b");

    let list = EditFileArgs { path: "f".to_string(), old_string: None, new_string: None, edits: Some(vec![op("x", "y"), op("y", "z")]) };
    assert_eq!(list.operations().ok().unwrap().len(), 2);

    let empty = EditFileArgs { path: "f".to_string(), old_string: None, new_string: None, edits: Some(vec![]) };
    assert!(matches!(empty.operations(), Err(EditError::MissingArgs)));
    let mixed = EditFileArgs { path: "f".to_string(), old_string: Some("a".to_string()), new_string: None, edits: None };
    assert!(matches!(mixed.operations(), Err(EditError::MissingArgs)));
    let both = EditFileArgs {
        path: "f".to_string(),
        old_string: Some("a".to_string()),
        new_string: Some("b".to_string()),
        edits: Some(vec![op("x", "y")]),
    };
    assert!(matches!(both.operations(), Err(EditError::MissingArgs)));
}

#[test]
fn diff_marks_changed_lines() {
    let d = diff_text("a\nb\nc\n", "a\nB\nc\n");
    assert_eq!(d, " a\n-b\n+B\n c\n");
}

#[test]
fn render_changes_signs() {
    let cs = vec![(DiffTag::Equal, "x\n".to_string()), (DiffTag::Delete, "y\n".to_string()), (DiffTag::Insert, "z".to_string())];
    assert_eq!(render_changes(&cs), " x\n-y\n+z");
}

#[test]
fn reverse_edit_restores_content() {
    let out = apply_edits("let a = b;", &vec![op("b", "c"), op("c", "b")]).ok().unwrap();
    assert_eq!(out, "let a = b;");
}

#[test]
fn edits_in_two_steps_same_as_at_once() {
    let content = "alpha beta gamma";
    let first = vec![op("beta", "BETA")];
    let second = vec![op("gamma", "G"), op("alpha", "A")];
    let mid = apply_edits(content, &first).ok().unwrap();
    let stepwise = apply_edits(&mid, &second).ok().unwrap();
    let all = vec![op("beta", "BETA"), op("gamma", "G"), op("alpha", "A")];
    let at_once = apply_edits(content, &all).ok().unwrap();
    assert_eq!(stepwise, at_once);
    assert_eq!(at_once, "A BETA G");
}

#[test]
fn diff_sides_rebuild_both_texts() {
    let old = "one\r\ntwo\nthree\nfive";
    let new = "one\r\nTWO\nthree\nfour\nfive";
    let d = diff_text(old, new);
    let mut old_side = String::new();
    let mut new_side = String::new();
    for change in d.split_inclusive('\n') {
        let (sign, line) = change.split_at(1);
        if sign != "+" {
            old_side.push_str(line);
        }
        if sign != "-" {
            new_side.push_str(line);
        }
    }
    assert_eq!(old_side, old);
    assert_eq!(new_side, new);
}
