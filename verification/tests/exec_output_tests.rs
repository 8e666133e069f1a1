use codex_core::exec_output::{
    format_exec_output_str, make_aggregated_output, ExecToolCallOutput, StreamOutput,
    MODEL_FORMAT_MAX_BYTES, MODEL_FORMAT_MAX_LINES,
};
use codex_core::shell::{PosixShell, PowerShellShell, Shell, ShellEnvironmentPolicy, ShellSnapshot};
use codex_core::shell::should_translate_shell_command;
use codex_core::text::{take_bytes_at_char_boundary, take_last_bytes_at_char_boundary};

#[test]
fn format_exec_output_str_no_truncation_when_under_limits() {
    let s = "line1\nline2\n";
    let eo = make_aggregated_output(s);
    let out = format_exec_output_str(&eo);
    assert_eq!(out, s);
}

#[test]
fn format_exec_output_str_truncates_with_head_tail_and_marker() {
    let big = (0..(MODEL_FORMAT_MAX_LINES + 50))
        .map(|i| format!("L{i:04}"))
        .collect::<Vec<_>>()
        .join("\n");
    let eo = make_aggregated_output(&big);
    let out = format_exec_output_str(&eo);

    assert!(out.contains("[... omitted "));
    assert!(out.starts_with("L0000"));
    assert!(out.ends_with(&format!("L{:04}", MODEL_FORMAT_MAX_LINES + 49)));
    assert!(out.as_bytes().len() <= MODEL_FORMAT_MAX_BYTES);
}

#[test]
fn take_bytes_at_char_boundary_handles_multibyte_prefix() {
    let s = "héllö世界";
    let maxb = 3;
    let out = take_bytes_at_char_boundary(s, maxb);
    assert!(std::str::from_utf8(out.as_bytes()).is_ok());
}

#[test]
fn take_last_bytes_at_char_boundary_handles_multibyte_suffix() {
    let s = "héllö世界";
    let maxb = 5;
    let out = take_last_bytes_at_char_boundary(s, maxb);
    assert!(std::str::from_utf8(out.as_bytes()).is_ok());
}

#[test]
fn should_translate_shell_command_powershell_or_policy_or_snapshot() {
    let pwsh = Shell::PowerShell(Default::default());
    let pol = ShellEnvironmentPolicy { use_profile: false };
    assert!(should_translate_shell_command(&pwsh, &pol));

    let posix = Shell::Posix(PosixShell { shell_snapshot: Some(Default::default()), ..Default::default() });
    assert!(should_translate_shell_command(&posix, &pol));

    let pol2 = ShellEnvironmentPolicy { use_profile: true };
    let plain_posix = Shell::Posix(PosixShell { shell_snapshot: None, ..Default::default() });
    assert!(should_translate_shell_command(&plain_posix, &pol2));

    assert!(!should_translate_shell_command(&plain_posix, &pol));
}

#[test]
fn take_bytes_at_char_boundary_handles_ascii_exact_budget() {
    let s = "abcdef";
    assert_eq!(take_bytes_at_char_boundary(s, 6), "abcdef");
    assert_eq!(take_bytes_at_char_boundary(s, 3), "abc");
    assert_eq!(take_bytes_at_char_boundary(s, 0), "");
}

#[test]
fn take_bytes_at_char_boundary_does_not_split_utf8() {
    // bytes: [61][C3 A9][F0 9F 90 B1][62]; "aé" takes 3 bytes and "🐱" 4, so a
    // 7-byte budget holds "aé🐱" exactly, and 8 bytes hold the whole string.
    let s = "aé🐱b";
    assert_eq!(take_bytes_at_char_boundary(s, 1), "a");
    assert_eq!(take_bytes_at_char_boundary(s, 2), "a");
    assert_eq!(take_bytes_at_char_boundary(s, 3), "aé");
    assert_eq!(take_bytes_at_char_boundary(s, 6), "aé");
    assert_eq!(take_bytes_at_char_boundary(s, 7), "aé🐱");
    assert_eq!(take_bytes_at_char_boundary(s, 8), "aé🐱b");
    assert_eq!(take_bytes_at_char_boundary(s, 7 + 4), "aé🐱b");
}

#[test]
fn take_last_bytes_at_char_boundary_handles_ascii_suffix() {
    let s = "abcdef";
    assert_eq!(take_last_bytes_at_char_boundary(s, 6), "abcdef");
    assert_eq!(take_last_bytes_at_char_boundary(s, 3), "def");
    assert_eq!(take_last_bytes_at_char_boundary(s, 0), "");
}

#[test]
fn take_last_bytes_at_char_boundary_does_not_split_utf8() {
    let s = "aé🐱b";
    assert_eq!(take_last_bytes_at_char_boundary(s, 1), "b");
    assert_eq!(take_last_bytes_at_char_boundary(s, 2), "b");
    assert_eq!(take_last_bytes_at_char_boundary(s, 4), "b");
    assert_eq!(take_last_bytes_at_char_boundary(s, 5), "🐱b");
    assert_eq!(take_last_bytes_at_char_boundary(s, 7), "é🐱b");
}

#[test]
fn returns_full_output_when_within_limits() {
    let s = "short output\nwith a few lines";
    let exec = ExecToolCallOutput {
        exit_code: 0,
        stdout: StreamOutput::new(String::new()),
        stderr: StreamOutput::new(String::new()),
        aggregated_output: StreamOutput::new(s.to_string()),
        duration: std::time::Duration::from_millis(50),
    };
    let out = format_exec_output_str(&exec);
    assert_eq!(out, s);
}

#[test]
fn returns_clipped_marker_when_marker_exceeds_budget() {
    let s = "\n".repeat(MODEL_FORMAT_MAX_LINES * 4);
    let exec = ExecToolCallOutput {
        exit_code: 0,
        stdout: StreamOutput::new(String::new()),
        stderr: StreamOutput::new(String::new()),
        aggregated_output: StreamOutput::new(s),
        duration: std::time::Duration::from_secs(1),
    };
    let out = format_exec_output_str(&exec);
    assert!(out.len() <= MODEL_FORMAT_MAX_BYTES);
}

#[test]
fn snapshot_and_powershell_profile_fields_are_plain_values() {
    let posix = Shell::Posix(PosixShell {
        shell_path: "/bin/zsh".to_string(),
        rc_path: "/Users/example/.zshrc".to_string(),
        shell_snapshot: Some(ShellSnapshot { path: "/tmp/snap".to_string() }),
    });
    let pol = ShellEnvironmentPolicy { use_profile: false };
    assert!(should_translate_shell_command(&posix, &pol));
    let pwsh = Shell::PowerShell(PowerShellShell { profile_path: None });
    assert!(should_translate_shell_command(&pwsh, &pol));
    assert!(!should_translate_shell_command(&Shell::Unknown, &pol));
    assert!(should_translate_shell_command(&Shell::Unknown, &ShellEnvironmentPolicy { use_profile: true }));
}
