use codex_core::patch::{ApplyPatchAction, ApplyPatchFileChange};
use codex_core::policy::{AskForApproval, SandboxPolicy, SandboxType, WritableRoot};
use codex_core::safety::{
    assess_command_safety, assess_patch_safety, assess_safety_for_untrusted_command,
    get_platform_sandbox, is_write_patch_constrained_to_writable_paths, ApprovedCommands,
    SafetyCheck,
};
use std::path::{Path, PathBuf};
use tempfile::TempDir;

/// Every operating system whose sandbox the expectations are checked for.
const TARGETS: [&str; 3] = ["macos", "linux", "windows"];

fn path_str(p: &Path) -> String {
    p.to_str().unwrap().to_string()
}

fn workspace_only_policy() -> SandboxPolicy {
    SandboxPolicy::WorkspaceWrite {
        writable_roots: vec![],
        network_access: false,
        exclude_tmpdir_env_var: true,
        exclude_slash_tmp: true,
    }
}

fn make_add(path: &Path) -> ApplyPatchAction {
    ApplyPatchAction::new_add_for_test(&path_str(path), "".to_string())
}

fn roots(policy: &SandboxPolicy, cwd: &str) -> Vec<WritableRoot> {
    policy.get_writable_roots_with_cwd(cwd, None)
}

fn constrained(action: &ApplyPatchAction, policy: &SandboxPolicy, cwd: &str) -> bool {
    is_write_patch_constrained_to_writable_paths(action, policy, cwd, &roots(policy, cwd))
}

fn patch_safety(
    action: &ApplyPatchAction,
    policy: AskForApproval,
    sandbox_policy: &SandboxPolicy,
    cwd: &str,
    os: &str,
) -> SafetyCheck {
    assess_patch_safety(action, policy, sandbox_policy, cwd, &roots(sandbox_policy, cwd), os)
}

fn sandbox_or(os: &str, fallback: SafetyCheck) -> SafetyCheck {
    match get_platform_sandbox(os) {
        Some(sandbox_type) => SafetyCheck::AutoApprove { sandbox_type },
        None => fallback,
    }
}

#[test]
fn test_writable_roots_constraint() {
    let tmp = TempDir::new().unwrap();
    let cwd = path_str(tmp.path());
    let parent = tmp.path().parent().unwrap().to_path_buf();

    let add_inside = make_add(&tmp.path().join("inner.txt"));
    let add_outside = make_add(&parent.join("outside.txt"));

    let policy_workspace_only = workspace_only_policy();
    assert!(constrained(&add_inside, &policy_workspace_only, &cwd));
    assert!(!constrained(&add_outside, &policy_workspace_only, &cwd));

    let policy_with_parent = SandboxPolicy::WorkspaceWrite {
        writable_roots: vec![path_str(&parent)],
        network_access: false,
        exclude_tmpdir_env_var: true,
        exclude_slash_tmp: true,
    };
    assert!(constrained(&add_outside, &policy_with_parent, &cwd));
}

#[test]
fn test_request_escalated_privileges() {
    let command = vec!["git commit".to_string()];
    let approved = ApprovedCommands::new();
    for os in TARGETS {
        let safety_check = assess_command_safety(
            &command,
            false,
            AskForApproval::OnRequest,
            &SandboxPolicy::ReadOnly,
            &approved,
            true,
            os,
        );
        assert_eq!(safety_check, SafetyCheck::AskUser);
    }
}

#[test]
fn test_request_escalated_privileges_no_sandbox_fallback() {
    let command = vec!["git".to_string(), "commit".to_string()];
    let approved = ApprovedCommands::new();
    for os in TARGETS {
        let safety_check = assess_command_safety(
            &command,
            false,
            AskForApproval::OnRequest,
            &SandboxPolicy::ReadOnly,
            &approved,
            false,
            os,
        );
        assert_eq!(safety_check, sandbox_or(os, SafetyCheck::AskUser));
    }
}

#[test]
fn assess_patch_safety_rejects_empty_patch() {
    let cwd = ".";
    let sandbox_policy = workspace_only_policy();
    let empty = ApplyPatchAction::default();
    assert!(empty.is_empty());
    for os in TARGETS {
        let res = patch_safety(&empty, AskForApproval::OnRequest, &sandbox_policy, cwd, os);
        assert_eq!(res, SafetyCheck::Reject { reason: "empty patch".to_string() });
    }
}

#[test]
fn assess_patch_safety_outside_workspace_policy_never_rejects() {
    let tmp = TempDir::new().unwrap();
    let cwd = path_str(tmp.path());
    let parent = tmp.path().parent().unwrap().to_path_buf();
    let outside = make_add(&parent.join("outside.txt"));
    for os in TARGETS {
        let res = patch_safety(&outside, AskForApproval::Never, &workspace_only_policy(), &cwd, os);
        assert_eq!(
            res,
            SafetyCheck::Reject {
                reason: "writing outside of the project; rejected by user approval settings"
                    .to_string()
            }
        );
    }
}

#[test]
fn assess_patch_safety_constrained_patch_autosandbox_or_ask() {
    let tmp = TempDir::new().unwrap();
    let cwd = path_str(tmp.path());
    let inside = make_add(&tmp.path().join("inner.txt"));
    for os in TARGETS {
        let res = patch_safety(&inside, AskForApproval::OnRequest, &workspace_only_policy(), &cwd, os);
        assert_eq!(res, sandbox_or(os, SafetyCheck::AskUser));
    }
}

#[test]
fn assess_patch_safety_on_failure_policy_prefers_auto_approve() {
    let tmp = TempDir::new().unwrap();
    let cwd = path_str(tmp.path());
    let inside = make_add(&tmp.path().join("inner.txt"));
    for os in TARGETS {
        let res_workspace =
            patch_safety(&inside, AskForApproval::OnFailure, &workspace_only_policy(), &cwd, os);
        assert_eq!(res_workspace, sandbox_or(os, SafetyCheck::AskUser));

        let res_danger =
            patch_safety(&inside, AskForApproval::OnFailure, &SandboxPolicy::DangerFullAccess, &cwd, os);
        assert_eq!(
            res_danger,
            sandbox_or(os, SafetyCheck::AutoApprove { sandbox_type: SandboxType::NoSandbox })
        );
    }
}

#[test]
fn is_write_patch_constrained_to_writable_paths_normalizes_paths() {
    let tmp = TempDir::new().unwrap();
    let cwd = path_str(tmp.path());
    let add_rel = make_add(&PathBuf::from("./a/../b/./c.txt"));
    assert!(constrained(&add_rel, &workspace_only_policy(), &cwd));
}

#[test]
fn assess_command_safety_trusted_when_approved_explicitly() {
    let command = vec!["some-binary".to_string(), "--flag".to_string()];
    let mut approved = ApprovedCommands::new();
    approved.insert(command.clone());
    for os in TARGETS {
        let res = assess_command_safety(
            &command,
            false,
            AskForApproval::OnRequest,
            &SandboxPolicy::ReadOnly,
            &approved,
            false,
            os,
        );
        assert_eq!(res, SafetyCheck::AutoApprove { sandbox_type: SandboxType::NoSandbox });
    }
}

#[test]
fn assess_safety_for_untrusted_unless_trusted_always_asks() {
    for sp in [SandboxPolicy::ReadOnly, SandboxPolicy::DangerFullAccess, workspace_only_policy()] {
        for os in TARGETS {
            let res = assess_safety_for_untrusted_command(AskForApproval::UnlessTrusted, &sp, false, os);
            assert_eq!(res, SafetyCheck::AskUser);
        }
    }
}

#[test]
fn assess_safety_for_untrusted_danger_full_access_autoapprove_none() {
    for ap in [AskForApproval::OnFailure, AskForApproval::Never, AskForApproval::OnRequest] {
        for os in TARGETS {
            let res =
                assess_safety_for_untrusted_command(ap, &SandboxPolicy::DangerFullAccess, false, os);
            assert_eq!(res, SafetyCheck::AutoApprove { sandbox_type: SandboxType::NoSandbox });
        }
    }
}

#[test]
fn assess_safety_for_untrusted_onrequest_readonly_escalated_asks() {
    for os in TARGETS {
        let res = assess_safety_for_untrusted_command(
            AskForApproval::OnRequest,
            &SandboxPolicy::ReadOnly,
            true,
            os,
        );
        assert_eq!(res, SafetyCheck::AskUser);
    }
}

#[test]
fn assess_safety_for_untrusted_onrequest_readonly_without_escalation_sandbox_or_ask() {
    for os in TARGETS {
        let res = assess_safety_for_untrusted_command(
            AskForApproval::OnRequest,
            &SandboxPolicy::ReadOnly,
            false,
            os,
        );
        assert_eq!(res, sandbox_or(os, SafetyCheck::AskUser));
    }
}

#[test]
fn assess_safety_for_untrusted_never_readonly_sandbox_or_reject() {
    for os in TARGETS {
        let res =
            assess_safety_for_untrusted_command(AskForApproval::Never, &SandboxPolicy::ReadOnly, false, os);
        let expected = sandbox_or(
            os,
            SafetyCheck::Reject {
                reason: "auto-rejected because command is not on trusted list".to_string(),
            },
        );
        assert_eq!(res, expected);
    }
}

#[test]
fn assess_safety_for_untrusted_onfailure_readonly_sandbox_or_ask() {
    for os in TARGETS {
        let res = assess_safety_for_untrusted_command(
            AskForApproval::OnFailure,
            &SandboxPolicy::ReadOnly,
            false,
            os,
        );
        assert_eq!(res, sandbox_or(os, SafetyCheck::AskUser));
    }
}

#[test]
fn assess_command_safety_untrusted_falls_back_to_policy_handling() {
    let command = vec!["definitely-not-safe".to_string()];
    let approved = ApprovedCommands::new();
    for os in TARGETS {
        let res = assess_command_safety(
            &command,
            false,
            AskForApproval::OnRequest,
            &SandboxPolicy::ReadOnly,
            &approved,
            false,
            os,
        );
        assert_eq!(res, sandbox_or(os, SafetyCheck::AskUser));
    }
}

#[test]
fn assess_patch_safety_constrained_with_sandbox_autoapprove() {
    let tmp = TempDir::new().unwrap();
    let cwd = path_str(tmp.path());
    let add_inside = make_add(&tmp.path().join("ok.txt"));
    for os in TARGETS {
        let result =
            patch_safety(&add_inside, AskForApproval::OnRequest, &workspace_only_policy(), &cwd, os);
        assert_eq!(result, sandbox_or(os, SafetyCheck::AskUser));
    }
}

#[test]
fn assess_patch_safety_constrained_no_sandbox_but_danger_allows_autoapprove() {
    let tmp = TempDir::new().unwrap();
    let cwd = path_str(tmp.path());
    let add_inside = make_add(&tmp.path().join("ok.txt"));
    for os in TARGETS {
        let result = patch_safety(
            &add_inside,
            AskForApproval::OnRequest,
            &SandboxPolicy::DangerFullAccess,
            &cwd,
            os,
        );
        assert_eq!(
            result,
            sandbox_or(os, SafetyCheck::AutoApprove { sandbox_type: SandboxType::NoSandbox })
        );
    }
}

#[test]
fn assess_patch_safety_unconstrained_never_rejects() {
    let tmp = TempDir::new().unwrap();
    let cwd = path_str(tmp.path());
    let parent = tmp.path().parent().unwrap().to_path_buf();
    let add_outside = make_add(&parent.join("outside.txt"));
    for os in TARGETS {
        let result =
            patch_safety(&add_outside, AskForApproval::Never, &workspace_only_policy(), &cwd, os);
        assert_eq!(
            result,
            SafetyCheck::Reject {
                reason: "writing outside of the project; rejected by user approval settings".to_string()
            }
        );
    }
}

#[test]
fn is_write_patch_constrained_handles_relative_and_parent_dirs() {
    let tmp = TempDir::new().unwrap();
    let cwd = path_str(tmp.path());
    let a1 = make_add(&PathBuf::from("./rel.txt"));
    let a2 = make_add(&PathBuf::from("a/../b/./../in.txt"));
    let a3 = make_add(&PathBuf::from("./dir/.././ok.md"));
    let policy = workspace_only_policy();
    assert!(constrained(&a1, &policy, &cwd));
    assert!(constrained(&a2, &policy, &cwd));
    assert!(constrained(&a3, &policy, &cwd));
}

#[test]
fn is_write_patch_constrained_readonly_is_false_and_danger_is_true() {
    let tmp = TempDir::new().unwrap();
    let cwd = path_str(tmp.path());
    let inside = make_add(&tmp.path().join("x"));
    assert!(!constrained(&inside, &SandboxPolicy::ReadOnly, &cwd));
    assert!(constrained(&inside, &SandboxPolicy::DangerFullAccess, &cwd));
}

#[test]
fn assess_command_safety_user_approved_bypasses_sandbox() {
    let cmd: Vec<String> = vec!["custom".into(), "op".into()];
    let mut approved = ApprovedCommands::new();
    approved.insert(cmd.clone());
    for os in TARGETS {
        let res = assess_command_safety(
            &cmd,
            false,
            AskForApproval::OnRequest,
            &SandboxPolicy::ReadOnly,
            &approved,
            false,
            os,
        );
        assert_eq!(res, SafetyCheck::AutoApprove { sandbox_type: SandboxType::NoSandbox });
    }
}

#[test]
fn assess_command_safety_untrusted_dangerfullaccess_combinations() {
    let cmd: Vec<String> = vec!["some".into(), "tool".into()];
    let approved = ApprovedCommands::new();
    for approval_policy in [AskForApproval::OnFailure, AskForApproval::Never, AskForApproval::OnRequest] {
        for os in TARGETS {
            let res = assess_command_safety(
                &cmd,
                false,
                approval_policy,
                &SandboxPolicy::DangerFullAccess,
                &approved,
                false,
                os,
            );
            assert_eq!(
                res,
                SafetyCheck::AutoApprove { sandbox_type: SandboxType::NoSandbox },
                "Expected AutoApprove(None) for {:?} + DangerFullAccess",
                approval_policy
            );
        }
    }
}

#[test]
fn assess_command_safety_escalated_requires_prompt() {
    let cmd: Vec<String> = vec!["needs".into(), "sudo?".into()];
    let approved = ApprovedCommands::new();
    for os in TARGETS {
        let res = assess_command_safety(
            &cmd,
            false,
            AskForApproval::OnRequest,
            &workspace_only_policy(),
            &approved,
            true,
            os,
        );
        assert_eq!(res, SafetyCheck::AskUser);
    }
}

#[test]
fn assess_command_safety_untrusted_onfailure_without_sandbox_asks_user() {
    let cmd: Vec<String> = vec!["untrusted".into()];
    let approved = ApprovedCommands::new();
    for os in TARGETS {
        let res = assess_command_safety(
            &cmd,
            false,
            AskForApproval::OnFailure,
            &SandboxPolicy::ReadOnly,
            &approved,
            false,
            os,
        );
        assert_eq!(res, sandbox_or(os, SafetyCheck::AskUser));
    }
}

#[test]
fn assess_command_safety_untrusted_never_without_sandbox_rejects() {
    let cmd: Vec<String> = vec!["untrusted".into()];
    let approved = ApprovedCommands::new();
    for os in TARGETS {
        let res = assess_command_safety(
            &cmd,
            false,
            AskForApproval::Never,
            &SandboxPolicy::ReadOnly,
            &approved,
            false,
            os,
        );
        match get_platform_sandbox(os) {
            Some(s) => assert_eq!(res, SafetyCheck::AutoApprove { sandbox_type: s }),
            None => assert_eq!(
                res,
                SafetyCheck::Reject {
                    reason: "auto-rejected because command is not on trusted list".to_string()
                }
            ),
        }
    }
}

#[test]
fn assess_command_safety_unless_trusted_always_asks_for_untrusted() {
    let cmd: Vec<String> = vec!["not-approved".into()];
    let approved = ApprovedCommands::new();
    for os in TARGETS {
        let res = assess_command_safety(
            &cmd,
            false,
            AskForApproval::UnlessTrusted,
            &SandboxPolicy::DangerFullAccess,
            &approved,
            false,
            os,
        );
        assert_eq!(res, SafetyCheck::AskUser);
    }
}
