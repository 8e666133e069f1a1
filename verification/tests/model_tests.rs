use codex_core::exec_output::{format_exec_output_str, make_aggregated_output, MODEL_FORMAT_MAX_BYTES};
use codex_core::patch::{ApplyPatchAction, ApplyPatchFileChange};
use codex_core::path::{components, join, normalize};
use codex_core::policy::{roots_with_git_dirs, SandboxPolicy, SandboxType, WritableRoot};
use codex_core::safety::{
    assess_patch_safety, assess_patch_safety_in_environment, get_platform_sandbox, is_write_patch_constrained_to_writable_paths, ApprovedCommands, SafetyCheck,
};
use codex_core::policy::AskForApproval;
use codex_core::text::{decimal_chars, join_lines, split_lines, str_eq, take_bytes_at_char_boundary};
use tempfile::TempDir;

fn cs(s: &str) -> Vec<char> {
    s.chars().collect()
}

fn comps(s: &str) -> Vec<String> {
    components(&cs(s)).iter().map(|c| c.iter().collect()).collect()
}

fn norm(s: &str) -> Vec<String> {
    normalize(&components(&cs(s))).iter().map(|c| c.iter().collect()).collect()
}

fn workspace(roots: Vec<String>) -> SandboxPolicy {
    SandboxPolicy::WorkspaceWrite {
        writable_roots: roots,
        network_access: false,
        exclude_tmpdir_env_var: true,
        exclude_slash_tmp: true,
    }
}

#[test]
fn components_follow_std_path_components() {
    assert_eq!(comps("/a//b/./c/"), vec!["/", "a", "b", "c"]);
    assert_eq!(comps("./a/../b"), vec![".", "a", "..", "b"]);
    assert_eq!(comps("a/./b"), vec!["a", "b"]);
    assert_eq!(comps(""), Vec::<String>::new());
    assert_eq!(comps("."), vec!["."]);
    assert_eq!(comps("/"), vec!["/"]);
    for p in ["/a//b/./c/", "./a/../b", "a/./b", "", ".", "/", "../x/.."] {
        let std_comps: Vec<String> = std::path::Path::new(p)
            .components()
            .map(|c| c.as_os_str().to_str().unwrap().to_string())
            .collect();
        assert_eq!(comps(p), std_comps, "components of {p:?}");
    }
}

#[test]
fn join_follows_pathbuf_join() {
    for (base, p) in [("/w", "x"), ("/w/", "x"), ("", "x"), ("/w", "/abs"), ("w", "./y")] {
        let joined: String = join(&cs(base), &cs(p)).iter().collect();
        let std_joined = std::path::Path::new(base).join(p);
        assert_eq!(joined, std_joined.to_str().unwrap(), "join of {base:?} and {p:?}");
    }
}

#[test]
fn normalize_removes_dots_and_resolves_parents() {
    assert_eq!(norm("/w/./a/../b/./c.txt"), vec!["/", "w", "b", "c.txt"]);
    assert_eq!(norm("/.."), vec!["/"]);
    assert_eq!(norm("../a"), vec!["a"]);
    assert_eq!(norm("a/../.."), Vec::<String>::new());
    // normalizing a normalized path changes nothing
    let once = normalize(&components(&cs("/w/./a/../b/../../x/./y")));
    let twice = normalize(&once);
    assert_eq!(once, twice);
}

#[test]
fn writable_roots_include_cwd_configured_and_tmpdir() {
    let policy = SandboxPolicy::WorkspaceWrite {
        writable_roots: vec!["/extra".to_string()],
        network_access: false,
        exclude_tmpdir_env_var: false,
        exclude_slash_tmp: true,
    };
    let roots = policy.get_writable_roots_with_cwd("/does/not/exist", Some("/my/tmp"));
    let names: Vec<&str> = roots.iter().map(|r| r.root.as_str()).collect();
    assert_eq!(names, vec!["/extra", "/does/not/exist", "/my/tmp"]);
    assert!(roots.iter().all(|r| r.read_only_subpaths.is_empty()));

    let excluded = workspace(vec![]).get_writable_roots_with_cwd("/cwd", Some("/my/tmp"));
    let names: Vec<&str> = excluded.iter().map(|r| r.root.as_str()).collect();
    assert_eq!(names, vec!["/cwd"]);

    let empty_tmpdir = SandboxPolicy::WorkspaceWrite {
        writable_roots: vec![],
        network_access: true,
        exclude_tmpdir_env_var: false,
        exclude_slash_tmp: true,
    }
    .get_writable_roots_with_cwd("/cwd", Some(""));
    assert_eq!(empty_tmpdir.len(), 1);

    assert!(SandboxPolicy::ReadOnly.get_writable_roots_with_cwd("/cwd", None).is_empty());
    assert!(SandboxPolicy::DangerFullAccess.get_writable_roots_with_cwd("/cwd", None).is_empty());
}

#[test]
fn slash_tmp_is_a_root_when_it_is_a_directory() {
    let policy = SandboxPolicy::WorkspaceWrite {
        writable_roots: vec![],
        network_access: false,
        exclude_tmpdir_env_var: true,
        exclude_slash_tmp: false,
    };
    let roots = policy.get_writable_roots_with_cwd("/cwd", None);
    let names: Vec<&str> = roots.iter().map(|r| r.root.as_str()).collect();
    if std::path::Path::new("/tmp").is_dir() {
        assert_eq!(names, vec!["/cwd", "/tmp"]);
    } else {
        assert_eq!(names, vec!["/cwd"]);
    }
}

#[test]
fn git_directory_of_a_root_stays_read_only() {
    let tmp = TempDir::new().unwrap();
    let cwd = tmp.path().to_str().unwrap().to_string();
    let _git = tempfile::Builder::new().prefix(".git").rand_bytes(0).tempdir_in(tmp.path()).unwrap();
    assert!(tmp.path().join(".git").is_dir());
    let policy = workspace(vec![]);
    let roots = policy.get_writable_roots_with_cwd(&cwd, None);
    assert_eq!(roots.len(), 1);
    assert_eq!(roots[0].read_only_subpaths, vec![format!("{cwd}/.git")]);

    assert!(roots[0].is_path_writable(&format!("{cwd}/src/main.rs")));
    assert!(!roots[0].is_path_writable(&format!("{cwd}/.git/config")));
    assert!(!roots[0].is_path_writable("/elsewhere/file"));

    let into_git = ApplyPatchAction::new_add_for_test(".git/hooks/pre-commit", "x".to_string());
    assert!(!is_write_patch_constrained_to_writable_paths(&into_git, &policy, &cwd, &roots));
    let sneaky = ApplyPatchAction::new_add_for_test("src/../.git/HEAD", "x".to_string());
    assert!(!is_write_patch_constrained_to_writable_paths(&sneaky, &policy, &cwd, &roots));
}

#[test]
fn moves_and_deletes_are_checked_too() {
    let cwd = "/work";
    let policy = workspace(vec![]);
    let roots = vec![WritableRoot { root: cwd.to_string(), read_only_subpaths: vec![] }];

    let mut moved_out = ApplyPatchAction::new();
    moved_out.insert(
        "a.txt".to_string(),
        ApplyPatchFileChange::Update {
            unified_diff: String::new(),
            move_path: Some("/elsewhere/a.txt".to_string()),
            new_content: String::new(),
        },
    );
    assert!(!is_write_patch_constrained_to_writable_paths(&moved_out, &policy, cwd, &roots));

    let mut moved_in = ApplyPatchAction::new();
    moved_in.insert(
        "a.txt".to_string(),
        ApplyPatchFileChange::Update {
            unified_diff: String::new(),
            move_path: Some("sub/b.txt".to_string()),
            new_content: String::new(),
        },
    );
    assert!(is_write_patch_constrained_to_writable_paths(&moved_in, &policy, cwd, &roots));

    let mut deletes = ApplyPatchAction::new();
    deletes.insert("inside.txt".to_string(), ApplyPatchFileChange::Delete { content: String::new() });
    assert!(is_write_patch_constrained_to_writable_paths(&deletes, &policy, cwd, &roots));
    deletes.insert("../outside.txt".to_string(), ApplyPatchFileChange::Delete { content: String::new() });
    assert!(!is_write_patch_constrained_to_writable_paths(&deletes, &policy, cwd, &roots));
}

#[test]
fn more_writable_roots_keep_a_patch_constrained() {
    let cwd = "/work/dir";
    let policy = workspace(vec![]);
    let patch = ApplyPatchAction::new_add_for_test("../shared/f.txt", String::new());
    let fewer = vec![WritableRoot { root: cwd.to_string(), read_only_subpaths: vec![] }];
    let mut more = fewer.clone();
    more.push(WritableRoot { root: "/work/shared".to_string(), read_only_subpaths: vec![] });
    assert!(!is_write_patch_constrained_to_writable_paths(&patch, &policy, cwd, &fewer));
    assert!(is_write_patch_constrained_to_writable_paths(&patch, &policy, cwd, &more));
    let inside = ApplyPatchAction::new_add_for_test("f.txt", String::new());
    assert!(is_write_patch_constrained_to_writable_paths(&inside, &policy, cwd, &fewer));
    assert!(is_write_patch_constrained_to_writable_paths(&inside, &policy, cwd, &more));
}

#[test]
fn relative_and_joined_paths_are_judged_alike() {
    let cwd = "/work";
    let policy = workspace(vec![]);
    let roots = vec![WritableRoot { root: cwd.to_string(), read_only_subpaths: vec![] }];
    for p in ["a/b.txt", "../x.txt", "./c/../d.txt"] {
        let rel = ApplyPatchAction::new_add_for_test(p, String::new());
        let abs = ApplyPatchAction::new_add_for_test(&format!("{cwd}/{p}"), String::new());
        assert_eq!(
            is_write_patch_constrained_to_writable_paths(&rel, &policy, cwd, &roots),
            is_write_patch_constrained_to_writable_paths(&abs, &policy, cwd, &roots),
        );
    }
}

#[test]
fn patch_action_keeps_one_change_per_path() {
    let mut action = ApplyPatchAction::default();
    assert!(action.is_empty());
    let first = action.insert("f".to_string(), ApplyPatchFileChange::Add { content: "1".to_string() });
    assert_eq!(first, None);
    let second = action.insert("f".to_string(), ApplyPatchFileChange::Add { content: "2".to_string() });
    assert_eq!(second, Some(ApplyPatchFileChange::Add { content: "1".to_string() }));
    assert_eq!(action.changes().len(), 1);
    assert_eq!(action.changes()[0].1, ApplyPatchFileChange::Add { content: "2".to_string() });
    action.insert("g".to_string(), ApplyPatchFileChange::Delete { content: String::new() });
    assert_eq!(action.changes().len(), 2);
    assert!(!action.is_empty());
}

#[test]
fn approved_commands_form_a_set() {
    let mut approved = ApprovedCommands::new();
    let cmd = vec!["git".to_string(), "push".to_string()];
    assert!(!approved.contains(&cmd));
    assert!(approved.insert(cmd.clone()));
    assert!(!approved.insert(cmd.clone()));
    assert!(approved.contains(&cmd));
    assert!(!approved.contains(&vec!["git".to_string()]));
    assert!(!approved.contains(&vec!["git".to_string(), "pull".to_string()]));
}

#[test]
fn confined_patch_is_never_rejected() {
    let cwd = "/work";
    let policy = workspace(vec![]);
    let roots = vec![WritableRoot { root: cwd.to_string(), read_only_subpaths: vec![] }];
    let inside = ApplyPatchAction::new_add_for_test("in.txt", String::new());
    for ap in [AskForApproval::UnlessTrusted, AskForApproval::OnFailure, AskForApproval::OnRequest, AskForApproval::Never] {
        for os in ["macos", "linux", "freebsd"] {
            let r = assess_patch_safety(&inside, ap, &policy, cwd, &roots, os);
            assert!(!matches!(r, SafetyCheck::Reject { .. }));
        }
    }
    let outside = ApplyPatchAction::new_add_for_test("/etc/passwd", String::new());
    assert_eq!(
        assess_patch_safety(&outside, AskForApproval::OnRequest, &policy, cwd, &roots, "linux"),
        SafetyCheck::AskUser
    );
    assert_eq!(
        assess_patch_safety(&outside, AskForApproval::UnlessTrusted, &policy, cwd, &roots, "linux"),
        SafetyCheck::AskUser
    );
}

#[test]
fn platform_sandbox_by_operating_system() {
    assert_eq!(get_platform_sandbox("macos"), Some(SandboxType::MacosSeatbelt));
    assert_eq!(get_platform_sandbox("linux"), Some(SandboxType::LinuxSeccomp));
    assert_eq!(get_platform_sandbox("windows"), None);
    assert_eq!(get_platform_sandbox("linu"), None);
    assert_eq!(get_platform_sandbox(""), None);
}

#[test]
fn text_helpers() {
    assert_eq!(decimal_chars(0), vec!['0']);
    assert_eq!(decimal_chars(1024).iter().collect::<String>(), "1024");
    assert!(str_eq("abc", "abc"));
    assert!(!str_eq("abc", "abd"));
    let lines = split_lines(&cs("a\r\nb\n\nc\r"));
    let as_strings: Vec<String> = lines.iter().map(|l| l.iter().collect()).collect();
    let std_lines: Vec<String> = "a\r\nb\n\nc\r".lines().map(|l| l.to_string()).collect();
    assert_eq!(as_strings, std_lines);
    for s in ["", "\n", "x\n", "x", "\n\n", "a\r\n"] {
        let got: Vec<String> = split_lines(&cs(s)).iter().map(|l| l.iter().collect()).collect();
        let want: Vec<String> = s.lines().map(|l| l.to_string()).collect();
        assert_eq!(got, want, "lines of {s:?}");
    }
    let joined: String = join_lines(&lines, 0, 3).iter().collect();
    assert_eq!(joined, "a\nb\n");
}

#[test]
fn aggregated_output_fixture_and_exact_summary() {
    let eo = make_aggregated_output("ok");
    assert_eq!(eo.aggregated_output.text, "ok");
    assert_eq!(eo.exit_code, 0);
    assert_eq!(eo.duration, std::time::Duration::from_millis(1234));
    assert!(eo.stdout.text.is_empty() && eo.stderr.text.is_empty());

    // 300 lines: 128 head lines, 128 tail lines, 44 omitted
    let text = (0..300).map(|i| format!("{i}")).collect::<Vec<_>>().join("\n");
    let out = format_exec_output_str(&make_aggregated_output(&text));
    let head = (0..128).map(|i| format!("{i}")).collect::<Vec<_>>().join("\n");
    let tail = (172..300).map(|i| format!("{i}")).collect::<Vec<_>>().join("\n");
    assert_eq!(out, format!("{head}\n[... omitted 44 of 300 lines ...]\n\n{tail}"));

    // too many bytes in one line: the head is cut to its byte budget, no tail
    let long = "x".repeat(20_000);
    let out = format_exec_output_str(&make_aggregated_output(&long));
    let marker = "\n[... omitted 0 of 1 lines ...]\n\n";
    assert_eq!(out, format!("{}{marker}", "x".repeat(5120)));

    // too many bytes over many lines: the tail fills what the head leaves
    let lines: Vec<String> = (0..400).map(|i| format!("{i:03}{}", "z".repeat(60))).collect();
    let text = lines.join("\n");
    let out = format_exec_output_str(&make_aggregated_output(&text));
    assert_eq!(out.len(), MODEL_FORMAT_MAX_BYTES);
    assert!(out.starts_with("000"));
    assert!(out.ends_with(&lines[399]));
    assert!(out.contains("\n[... omitted 144 of 400 lines ...]\n\n"));
}

#[test]
fn byte_prefix_never_exceeds_budget() {
    let s = "日本語テキスト";
    for b in 0..30 {
        let p = take_bytes_at_char_boundary(s, b);
        assert!(p.len() <= b);
        assert!(s.starts_with(&p));
    }
}

#[test]
fn windows_paths_are_not_judged_confined() {
    let cwd = "C:\\w";
    let policy = workspace(vec![]);
    let roots = vec![WritableRoot { root: cwd.to_string(), read_only_subpaths: vec![] }];
    let inside = ApplyPatchAction::new_add_for_test("x.txt", String::new());
    assert_eq!(
        assess_patch_safety(&inside, AskForApproval::Never, &policy, cwd, &roots, "windows"),
        SafetyCheck::Reject {
            reason: "writing outside of the project; rejected by user approval settings".to_string()
        }
    );
    assert_eq!(
        assess_patch_safety(&inside, AskForApproval::OnRequest, &policy, cwd, &roots, "windows"),
        SafetyCheck::AskUser
    );
    assert_eq!(
        assess_patch_safety(&inside, AskForApproval::Never, &SandboxPolicy::DangerFullAccess, cwd, &roots, "windows"),
        SafetyCheck::AutoApprove { sandbox_type: SandboxType::NoSandbox }
    );
    // the same patch under a Unix working directory is confined
    let unix_roots = vec![WritableRoot { root: "/w".to_string(), read_only_subpaths: vec![] }];
    assert_eq!(
        assess_patch_safety(&inside, AskForApproval::Never, &policy, "/w", &unix_roots, "linux"),
        SafetyCheck::AutoApprove { sandbox_type: SandboxType::LinuxSeccomp }
    );
}

#[test]
fn roots_are_built_from_the_filesystem_answers() {
    let policy = SandboxPolicy::WorkspaceWrite {
        writable_roots: vec!["/extra".to_string()],
        network_access: false,
        exclude_tmpdir_env_var: false,
        exclude_slash_tmp: false,
    };
    let with_tmp = policy.root_paths("/cwd", Some("/my/tmp"), true);
    assert_eq!(with_tmp, vec!["/extra", "/cwd", "/tmp", "/my/tmp"]);
    let without_tmp = policy.root_paths("/cwd", None, false);
    assert_eq!(without_tmp, vec!["/extra", "/cwd"]);
    let excluded = SandboxPolicy::WorkspaceWrite {
        writable_roots: vec![],
        network_access: false,
        exclude_tmpdir_env_var: true,
        exclude_slash_tmp: true,
    };
    assert_eq!(excluded.root_paths("/cwd", Some("/my/tmp"), true), vec!["/cwd"]);
    assert!(SandboxPolicy::ReadOnly.root_paths("/cwd", None, true).is_empty());

    let roots = roots_with_git_dirs(&with_tmp, &vec![true, false, false, true]);
    assert_eq!(roots[0].read_only_subpaths, vec!["/extra/.git"]);
    assert!(roots[1].read_only_subpaths.is_empty());
    assert!(roots[2].read_only_subpaths.is_empty());
    assert_eq!(roots[3].read_only_subpaths, vec!["/my/tmp/.git"]);
    assert_eq!(roots[3].root, "/my/tmp");
}

#[test]
fn patch_safety_in_environment_reads_the_roots() {
    let tmp = TempDir::new().unwrap();
    let cwd = tmp.path().to_str().unwrap().to_string();
    let policy = workspace(vec![]);
    let inside = ApplyPatchAction::new_add_for_test("in.txt", String::new());
    let outside = ApplyPatchAction::new_add_for_test("../out.txt", String::new());
    assert_eq!(
        assess_patch_safety_in_environment(&inside, AskForApproval::Never, &policy, &cwd, None, "linux"),
        SafetyCheck::AutoApprove { sandbox_type: SandboxType::LinuxSeccomp }
    );
    assert_eq!(
        assess_patch_safety_in_environment(&outside, AskForApproval::Never, &policy, &cwd, None, "linux"),
        SafetyCheck::Reject {
            reason: "writing outside of the project; rejected by user approval settings".to_string()
        }
    );
}
