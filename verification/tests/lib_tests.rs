use rig_tools::resolve_path;
use rig_tools::{format_command_output, format_command_output_checked, tool_meta, tools, CommandOutput};

#[test]
fn resolve_path_absolute() {
    let result = resolve_path("/tmp/foo", None);
    assert_eq!(result, "/tmp/foo");
}

#[test]
fn resolve_path_relative_with_wd() {
    let wd = "/tmp".to_string();
    let result = resolve_path("foo", Some(&wd));
    assert_eq!(result, "/tmp/foo");
}

#[test]
fn resolve_path_relative_no_wd() {
    let result = resolve_path("foo", None);
    assert_eq!(result, "foo");
}

#[test]
fn resolve_path_absolute_ignores_wd() {
    let wd = "/home/user".to_string();
    assert_eq!(resolve_path("/etc/hosts", Some(&wd)), "/etc/hosts");
}

#[test]
fn resolve_path_wd_with_trailing_slash() {
    let wd = "/tmp/".to_string();
    assert_eq!(resolve_path("foo/bar.txt", Some(&wd)), "/tmp/foo/bar.txt");
}

#[test]
fn resolve_path_twice_is_same() {
    let wd = "/srv".to_string();
    let once = resolve_path("a/b", Some(&wd));
    let twice = resolve_path(&once, Some(&wd));
    assert_eq!(once, twice);
}

const STDERR_LABEL: &str = "stderr:";
const TRUNCATED: &str = "... (beginning of output truncated)";

fn output(stdout: &[u8], stderr: &[u8]) -> CommandOutput {
    CommandOutput { exit_code: Some(0), stdout: stdout.to_vec(), stderr: stderr.to_vec() }
}

#[test]
fn format_output_stdout_only() {
    assert_eq!(format_command_output(&output(b"hello", b""), STDERR_LABEL, TRUNCATED), "hello");
}

#[test]
fn format_output_both() {
    assert_eq!(format_command_output(&output(b"out", b"err"), STDERR_LABEL, TRUNCATED), "out\nstderr:\nerr");
}

#[test]
fn format_output_truncation() {
    let stdout = vec![b'a'; 11000];
    let result = format_command_output(&output(&stdout, b""), STDERR_LABEL, TRUNCATED);
    assert!(result.len() < 11000);
    assert!(result.starts_with("... (beginning of output truncated)"));
}

#[test]
fn format_output_stderr_only() {
    assert_eq!(format_command_output(&output(b"", b"boom"), STDERR_LABEL, TRUNCATED), "stderr:\nboom");
}

#[test]
fn format_output_empty() {
    assert_eq!(format_command_output(&output(b"", b""), STDERR_LABEL, TRUNCATED), "");
}

#[test]
fn format_output_keeps_last_bytes() {
    let mut stdout = vec![b'a'; 10000];
    stdout.extend_from_slice(b"TAIL");
    let result = format_command_output(&output(&stdout, b""), STDERR_LABEL, TRUNCATED);
    let expected_tail = format!("{}TAIL", "a".repeat(9996));
    assert_eq!(result, format!("{}\n{}", TRUNCATED, expected_tail));
}

#[test]
fn format_output_invalid_utf8_replaced() {
    assert_eq!(format_command_output(&output(&[b'o', 0xff, b'k'], b""), STDERR_LABEL, TRUNCATED), "o\u{FFFD}k");
}

#[test]
fn format_output_checked_refuses_cut_inside_char() {
    // 10001 bytes: 'é' (2 bytes) then 9999 ASCII bytes; the cut at byte 1 falls inside 'é'.
    let mut stdout = "é".as_bytes().to_vec();
    stdout.extend_from_slice(&vec![b'x'; 9999]);
    assert_eq!(format_command_output_checked(&output(&stdout, b""), STDERR_LABEL, TRUNCATED), None);
    let short = format_command_output_checked(&output(b"ok", b""), STDERR_LABEL, TRUNCATED);
    assert_eq!(short, Some("ok".to_string()));
}

#[test]
fn tool_meta_finds_known_tools() {
    let m = tool_meta("grep").expect("grep is a tool");
    assert_eq!(m.rig_name, "grep");
    assert_eq!(m.name_key, "ui.grep.name");
    assert_eq!(m.desc_key, "ui.grep.desc");
    assert!(tool_meta("nope").is_none());
    assert_eq!(tools().len(), 9);
    assert_eq!(tools()[0].rig_name, "read_file");
}

#[test]
fn format_output_ignores_exit_code() {
    let ok = CommandOutput { exit_code: Some(0), stdout: b"done".to_vec(), stderr: b"warn".to_vec() };
    let failed = CommandOutput { exit_code: Some(1), stdout: b"done".to_vec(), stderr: b"warn".to_vec() };
    let killed = CommandOutput { exit_code: None, stdout: b"done".to_vec(), stderr: b"warn".to_vec() };
    let a = format_command_output(&ok, STDERR_LABEL, TRUNCATED);
    assert_eq!(a, "done\nstderr:\nwarn");
    assert_eq!(format_command_output(&failed, STDERR_LABEL, TRUNCATED), a);
    assert_eq!(format_command_output(&killed, STDERR_LABEL, TRUNCATED), a);
}
