use rig_tools::powershell::PowerShellArgs;
use rig_tools::text::{split_lines, push_decimal};

#[test]
fn lines_like_std() {
    for s in ["", "a", "a\n", "a\r\nb", "a\n\nb\r", "\n", "x\r\n\r\n"] {
        let ours = split_lines(s);
        let std_lines: Vec<String> = s.lines().map(|l| l.to_string()).collect();
        assert_eq!(ours, std_lines, "input {:?}", s);
    }
}

#[test]
fn decimal_numbers() {
    for n in [0usize, 7, 10, 99, 12345, usize::MAX] {
        let mut s = String::new();
        push_decimal(&mut s, n);
        assert_eq!(s, n.to_string());
    }
}

#[test]
fn powershell_timeout_default() {
    let a = PowerShellArgs { command: "dir".to_string(), timeout: None };
    assert_eq!(a.timeout_secs(), 120);
    let a = PowerShellArgs { command: "dir".to_string(), timeout: Some(5) };
    assert_eq!(a.timeout_secs(), 5);
}
