use code_assistant::shell::{
    admit_command, screen_command, shell_outcome, show_output, SafeShellToolError, SAFE_SHELL_TOOL_DESCRIPTION,
    SAFE_SHELL_TOOL_NAME, STDERR_MAX_BYTES, STDOUT_MAX_BYTES,
};

#[test]
fn tool_name_and_description() {
    assert_eq!(SAFE_SHELL_TOOL_NAME, "safe-shell");
    assert_eq!(
        SAFE_SHELL_TOOL_DESCRIPTION,
        "Runs safe shell commands like cat, grep, find, etc."
    );
}

#[test]
fn refused_command_is_named_in_the_error() {
    let err = admit_command("cat a >> b", false).expect_err("refused");
    match &err {
        SafeShellToolError::CommandIsNotAllowed(cmd) => assert_eq!(cmd, "cat a >> b"),
        _ => panic!("wrong variant"),
    }
    assert_eq!(
        err.message(),
        "Command 'cat a >> b' is not allowed or is restricted"
    );
    assert!(admit_command("ls", true).is_ok());
}

#[test]
fn checker_refuses_deleting_everything() {
    let cmd = "rm -rf /";
    let err = screen_command(cmd).expect_err("refused");
    assert_eq!(err.message(), "Command 'rm -rf /' is not allowed or is restricted");
}

#[test]
fn checker_refuses_appending_output_to_a_file() {
    let cmd = "cat /home/u/text.txt >> /home/u/output.txt";
    let err = screen_command(cmd).expect_err("refused");
    assert_eq!(
        err.message(),
        "Command 'cat /home/u/text.txt >> /home/u/output.txt' is not allowed or is restricted"
    );
    assert!(screen_command("cat text.txt >> /etc/output.txt").is_err());
}

#[test]
fn checker_allows_reading_a_file() {
    assert!(screen_command("cat text.txt").is_ok());
}

#[test]
fn successful_output_is_passed_through() {
    let out = shell_outcome(true, b"hello\n  world", b"ignored").expect("success");
    assert_eq!(out, "hello\n  world");
}

#[test]
fn long_output_is_cut_with_a_note() {
    let long = "x".repeat(STDOUT_MAX_BYTES + 1);
    let out = shell_outcome(true, long.as_bytes(), b"").expect("success");
    let note = "\n\n[... Output truncated. First 10000 bytes shown ...]";
    assert!(out.ends_with(note));
    assert_eq!(out.len(), STDOUT_MAX_BYTES);
    assert_eq!(out, format!("{}{}", "x".repeat(STDOUT_MAX_BYTES - note.len()), note));
}

#[test]
fn failure_reports_error_output() {
    let err = shell_outcome(false, b"out", b"boom").expect_err("failure");
    match &err {
        SafeShellToolError::Failure(text) => assert_eq!(text, "boom"),
        _ => panic!("wrong variant"),
    }
    assert_eq!(err.message(), "Command exited with error: 'boom'");
}

#[test]
fn long_error_output_is_cut_to_its_budget() {
    let long = "e".repeat(STDERR_MAX_BYTES * 2);
    let err = shell_outcome(false, b"", long.as_bytes()).expect_err("failure");
    let SafeShellToolError::Failure(text) = err else {
        panic!("wrong variant")
    };
    assert_eq!(text.len(), STDERR_MAX_BYTES);
    assert!(text.ends_with("\n\n[... Output truncated. First 5000 bytes shown ...]"));
}

#[test]
fn failed_start_names_the_command() {
    let err = SafeShellToolError::FailedToExecute(
        String::from("ls"),
        std::io::Error::new(std::io::ErrorKind::NotFound, "no shell"),
    );
    assert_eq!(err.message(), "Failed to execute 'ls', IO Error: 'no shell'");
}

#[test]
fn invalid_utf8_output_is_replaced() {
    let out = shell_outcome(true, b"ok\xFF!", b"").expect("success");
    assert_eq!(out, "ok\u{FFFD}!");
    let err = shell_outcome(false, b"", b"\xC3(").expect_err("failure");
    assert_eq!(err.message(), "Command exited with error: '\u{FFFD}('");
}

#[test]
fn output_within_budget_is_shown_whole() {
    assert_eq!(show_output("short", 5), "short");
    let cut = show_output(&"y".repeat(200), 60);
    assert_eq!(cut, format!("{}{}", "y".repeat(10), "\n\n[... Output truncated. First 60 bytes shown ...]"));
}

#[test]
fn valid_output_within_budget_comes_back_unchanged() {
    let text = "hello\n  world, ünïcödé ✓";
    assert_eq!(shell_outcome(true, text.as_bytes(), b"").expect("success"), text);
}

#[test]
fn ten_thousand_and_one_bytes_are_cut_exactly() {
    let out = shell_outcome(true, "a".repeat(10_001).as_bytes(), b"").expect("success");
    assert_eq!(
        out,
        format!(
            "{}\n\n[... Output truncated. First 10000 bytes shown ...]",
            "a".repeat(9_947)
        )
    );
    assert_eq!(out.len(), 10_000);
}
