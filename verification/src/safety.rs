//! Whether a patch or a command may run automatically, must be approved by
//! the user, or is rejected, under the approval and sandbox policies.
use vstd::prelude::*;
use crate::patch::{ApplyPatchAction, ApplyPatchFileChange};
use crate::path::{
    chars_list_view, components, is_absolute, join, normalize, spec_components, spec_is_absolute,
    spec_join, spec_normalize, spec_starts_with,
};
use crate::policy::{
    dot_git, root_view, roots_view, spec_built_roots, spec_roots_on_disk, spec_workspace_roots, spec_granted_roots, spec_root_allows,
    spec_root_paths, strings_view, opt_str_view, AskForApproval, SandboxPolicy, SandboxType, WritableRoot,
};
use crate::text::{chars_of, str_eq};

verus! {

broadcast use vstd::string::group_string_axioms;

/// The outcome of a safety assessment.
#[derive(Debug, Clone, PartialEq, Eq)]
pub enum SafetyCheck {
    /// Run without asking, in the given sandbox.
    AutoApprove { sandbox_type: SandboxType },
    /// Ask the user first.
    AskUser,
    /// Do not run, for the given reason.
    Reject { reason: String },
}

/// The mathematical value of a `SafetyCheck`: the reason as characters.
pub enum SafetyCheckView {
    AutoApprove { sandbox_type: SandboxType },
    AskUser,
    Reject { reason: Seq<char> },
}

impl View for SafetyCheck {
    type V = SafetyCheckView;

    open spec fn view(&self) -> SafetyCheckView {
        match self {
            SafetyCheck::AutoApprove { sandbox_type } => SafetyCheckView::AutoApprove {
                sandbox_type: *sandbox_type,
            },
            SafetyCheck::AskUser => SafetyCheckView::AskUser,
            SafetyCheck::Reject { reason } => SafetyCheckView::Reject { reason: reason@ },
        }
    }
}

/// The reason given for rejecting a patch without changes.
pub open spec fn empty_patch_reason() -> Seq<char> {
    "empty patch"@
}

/// The reason given for rejecting a patch that writes outside the writable
/// roots when the user is never asked.
pub open spec fn outside_project_reason() -> Seq<char> {
    "writing outside of the project; rejected by user approval settings"@
}

/// The reason given for rejecting an untrusted command when no sandbox is
/// available and the user is never asked.
pub open spec fn untrusted_command_reason() -> Seq<char> {
    "auto-rejected because command is not on trusted list"@
}

/// The sandbox available on the operating system named `target_os`
/// (as `std::env::consts::OS` names it).
pub open spec fn spec_platform_sandbox(target_os: Seq<char>) -> Option<SandboxType> {
    if target_os == "macos"@ {
        Some(SandboxType::MacosSeatbelt)
    } else if target_os == "linux"@ {
        Some(SandboxType::LinuxSeccomp)
    } else {
        None
    }
}

/// The sandbox available on the operating system named `target_os`:
/// Seatbelt on macOS, seccomp on Linux, none elsewhere.
pub fn get_platform_sandbox(target_os: &str) -> (r: Option<SandboxType>)
    ensures
        r == spec_platform_sandbox(target_os@),
        r != Some(SandboxType::NoSandbox),
{
    if str_eq(target_os, "macos") {
        Some(SandboxType::MacosSeatbelt)
    } else if str_eq(target_os, "linux") {
        Some(SandboxType::LinuxSeccomp)
    } else {
        None
    }
}

/// `p` made absolute against `cwd`.
pub open spec fn spec_absolute_path(cwd: Seq<char>, p: Seq<char>) -> Seq<char> {
    if spec_is_absolute(p) {
        p
    } else {
        spec_join(cwd, p)
    }
}

/// Whether some root grants writing to `p`, once `p` is made absolute
/// against `cwd` and lexically normalized.
pub open spec fn spec_is_path_writable(roots: Seq<WritableRoot>, cwd: Seq<char>, p: Seq<char>) -> bool {
    exists|i: int|
        0 <= i < roots.len() && spec_root_allows(
            #[trigger] roots[i],
            spec_normalize(spec_components(spec_absolute_path(cwd, p))),
        )
}

/// Whether every path that one change writes (its path, and the destination
/// of a move) is writable.
pub open spec fn spec_change_writable(
    roots: Seq<WritableRoot>,
    cwd: Seq<char>,
    entry: (String, ApplyPatchFileChange),
) -> bool {
    &&& spec_is_path_writable(roots, cwd, entry.0@)
    &&& match entry.1 {
        ApplyPatchFileChange::Update { move_path: Some(dest), .. } => spec_is_path_writable(
            roots,
            cwd,
            dest@,
        ),
        _ => true,
    }
}

/// Whether every write of the patch stays inside the writable roots of the
/// sandbox policy: never under a read-only policy, always under full access.
pub open spec fn spec_patch_constrained(
    changes: Seq<(String, ApplyPatchFileChange)>,
    sandbox_policy: SandboxPolicy,
    cwd: Seq<char>,
    roots: Seq<WritableRoot>,
) -> bool {
    match sandbox_policy {
        SandboxPolicy::ReadOnly => false,
        SandboxPolicy::DangerFullAccess => true,
        SandboxPolicy::WorkspaceWrite { .. } => forall|i: int|
            0 <= i < changes.len() ==> spec_change_writable(roots, cwd, #[trigger] changes[i]),
    }
}

/// Whether some root in `roots` grants writing to `p`.
fn is_path_writable_under(roots: &Vec<WritableRoot>, cwd: &Vec<char>, p: &str) -> (r: bool)
    ensures
        r == spec_is_path_writable(roots@, cwd@, p@),
{
    let pc = chars_of(p);
    let abs = if is_absolute(&pc) {
        pc
    } else {
        join(cwd, &pc)
    };
    let comps = components(&abs);
    let norm = normalize(&comps);
    let ghost target = spec_normalize(spec_components(spec_absolute_path(cwd@, p@)));
    assert(chars_list_view(norm@) == target);
    let mut i: usize = 0;
    while i < roots.len()
        invariant
            i <= roots@.len(),
            chars_list_view(norm@) == target,
            target == spec_normalize(spec_components(spec_absolute_path(cwd@, p@))),
            forall|j: int| 0 <= j < i ==> !spec_root_allows(#[trigger] roots@[j], target),
        decreases roots@.len() - i,
    {
        if roots[i].allows_components(&norm) {
            assert(spec_root_allows(roots@[i as int], target));
            return true;
        }
        i = i + 1;
    }
    false
}

/// Whether every file that `action` writes lies inside the writable roots
/// granted by `sandbox_policy`, paths taken relative to `cwd` and lexically
/// normalized. `writable_roots` are the roots that the policy grants for
/// `cwd` (see `SandboxPolicy::get_writable_roots_with_cwd`).
pub fn is_write_patch_constrained_to_writable_paths(
    action: &ApplyPatchAction,
    sandbox_policy: &SandboxPolicy,
    cwd: &str,
    writable_roots: &Vec<WritableRoot>,
) -> (r: bool)
    ensures
        r == spec_patch_constrained(action@, *sandbox_policy, cwd@, writable_roots@),
        *sandbox_policy is ReadOnly ==> !r,
        *sandbox_policy is DangerFullAccess ==> r,
        *sandbox_policy is WorkspaceWrite ==> (r <==> forall|i: int|
            0 <= i < action@.len() ==> spec_writes_granted(
                writable_roots@,
                cwd@,
                #[trigger] action@[i],
            )),
{
    proof {
        if *sandbox_policy is WorkspaceWrite {
            law_patch_confined_change_by_change(action@, *sandbox_policy, cwd@, writable_roots@);
        }
    }
    match sandbox_policy {
        SandboxPolicy::ReadOnly => {
            return false;
        },
        SandboxPolicy::DangerFullAccess => {
            return true;
        },
        SandboxPolicy::WorkspaceWrite { .. } => {},
    }
    let cwd_chars = chars_of(cwd);
    let changes = action.changes();
    let mut i: usize = 0;
    while i < changes.len()
        invariant
            sandbox_policy is WorkspaceWrite,
            cwd_chars@ == cwd@,
            changes@ == action@,
            i <= changes@.len(),
            forall|j: int|
                0 <= j < i ==> spec_change_writable(writable_roots@, cwd@, #[trigger] changes@[j]),
        decreases changes@.len() - i,
    {
        let entry = &changes[i];
        if !is_path_writable_under(writable_roots, &cwd_chars, entry.0.as_str()) {
            return false;
        }
        match &entry.1 {
            ApplyPatchFileChange::Update { move_path: Some(dest), .. } => {
                if !is_path_writable_under(writable_roots, &cwd_chars, dest.as_str()) {
                    return false;
                }
            },
            _ => {},
        }
        i = i + 1;
    }
    true
}

/// Auto-approval in the platform sandbox where there is one; without a
/// sandbox where the user chose full access; otherwise asking the user.
pub open spec fn spec_sandboxed_or_fallback(
    platform: Option<SandboxType>,
    sandbox_policy: SandboxPolicy,
) -> SafetyCheckView {
    match platform {
        Some(s) => SafetyCheckView::AutoApprove { sandbox_type: s },
        None => if sandbox_policy is DangerFullAccess {
            SafetyCheckView::AutoApprove { sandbox_type: SandboxType::NoSandbox }
        } else {
            SafetyCheckView::AskUser
        },
    }
}

/// The decision on a patch: an empty patch is rejected; a patch confined to
/// the writable roots, or any patch under `OnFailure`, is approved in a
/// sandbox where one is available; otherwise `Never` rejects and any other
/// policy asks the user.
pub open spec fn spec_assess_patch(
    is_empty: bool,
    constrained: bool,
    policy: AskForApproval,
    sandbox_policy: SandboxPolicy,
    platform: Option<SandboxType>,
) -> SafetyCheckView {
    if is_empty {
        SafetyCheckView::Reject { reason: empty_patch_reason() }
    } else if constrained || policy == AskForApproval::OnFailure {
        spec_sandboxed_or_fallback(platform, sandbox_policy)
    } else if policy == AskForApproval::Never {
        SafetyCheckView::Reject { reason: outside_project_reason() }
    } else {
        SafetyCheckView::AskUser
    }
}

/// Whether paths are judged for the operating system `target_os`: the
/// library's paths are Unix paths, so it does not judge Windows paths.
pub open spec fn spec_judges_paths(target_os: Seq<char>) -> bool {
    target_os != "windows"@
}

/// Whether the patch counts as confined to the writable roots on
/// `target_os`: as `spec_patch_constrained` says, except that a
/// workspace-write patch is never counted as confined where paths are not
/// judged.
pub open spec fn spec_patch_confined_on(
    changes: Seq<(String, ApplyPatchFileChange)>,
    sandbox_policy: SandboxPolicy,
    cwd: Seq<char>,
    roots: Seq<WritableRoot>,
    target_os: Seq<char>,
) -> bool {
    if !spec_judges_paths(target_os) && sandbox_policy is WorkspaceWrite {
        false
    } else {
        spec_patch_constrained(changes, sandbox_policy, cwd, roots)
    }
}

/// Decides whether `action` may be applied without asking the user.
/// `writable_roots` are the roots granted by `sandbox_policy` for `cwd`;
/// `target_os` names the operating system (see `get_platform_sandbox`).
/// On Windows, whose paths the library does not model, a workspace-write
/// patch is never counted as confined to the writable roots.
pub fn assess_patch_safety(
    action: &ApplyPatchAction,
    policy: AskForApproval,
    sandbox_policy: &SandboxPolicy,
    cwd: &str,
    writable_roots: &Vec<WritableRoot>,
    target_os: &str,
) -> (r: SafetyCheck)
    ensures
        r@ == spec_assess_patch(
            action@.len() == 0,
            spec_patch_confined_on(action@, *sandbox_policy, cwd@, writable_roots@, target_os@),
            policy,
            *sandbox_policy,
            spec_platform_sandbox(target_os@),
        ),
        action@.len() == 0 ==> r@ == (SafetyCheckView::Reject { reason: empty_patch_reason() }),
        action@.len() > 0 && spec_patch_confined_on(
            action@,
            *sandbox_policy,
            cwd@,
            writable_roots@,
            target_os@,
        ) ==> !(r@ is Reject),
        r@ == (SafetyCheckView::AutoApprove { sandbox_type: SandboxType::NoSandbox })
            ==> *sandbox_policy is DangerFullAccess,
        action@.len() > 0 && (*sandbox_policy is DangerFullAccess || policy
            == AskForApproval::OnFailure) ==> !(r@ is Reject),
        action@.len() > 0 && *sandbox_policy is DangerFullAccess ==> r@ is AutoApprove,
        action@.len() > 0 && spec_patch_confined_on(
            action@,
            *sandbox_policy,
            cwd@,
            writable_roots@,
            target_os@,
        ) && spec_platform_sandbox(target_os@) is Some ==> r@ == (SafetyCheckView::AutoApprove {
            sandbox_type: spec_platform_sandbox(target_os@).unwrap(),
        }),
{
    proof {
        if action@.len() > 0 && spec_platform_sandbox(target_os@) is Some {
            law_confined_patch_runs_in_platform_sandbox(
                spec_patch_confined_on(action@, *sandbox_policy, cwd@, writable_roots@, target_os@),
                policy,
                *sandbox_policy,
                spec_platform_sandbox(target_os@).unwrap(),
            );
        }
    }
    if action.is_empty() {
        return SafetyCheck::Reject { reason: "empty patch".to_string() };
    }
    let judged = !(matches!(sandbox_policy, SandboxPolicy::WorkspaceWrite { .. }) && str_eq(
        target_os,
        "windows",
    ));
    if (judged && is_write_patch_constrained_to_writable_paths(
        action,
        sandbox_policy,
        cwd,
        writable_roots,
    )) || policy == AskForApproval::OnFailure {
        match get_platform_sandbox(target_os) {
            Some(sandbox_type) => SafetyCheck::AutoApprove { sandbox_type },
            None => {
                if matches!(sandbox_policy, SandboxPolicy::DangerFullAccess) {
                    SafetyCheck::AutoApprove { sandbox_type: SandboxType::NoSandbox }
                } else {
                    SafetyCheck::AskUser
                }
            },
        }
    } else if policy == AskForApproval::Never {
        SafetyCheck::Reject {
            reason: "writing outside of the project; rejected by user approval settings".to_string(),
        }
    } else {
        SafetyCheck::AskUser
    }
}

/// Decides whether `action` may be applied without asking the user, with
/// the writable roots that `sandbox_policy` grants for `cwd` read from this
/// machine. `tmpdir_env` is the value of `$TMPDIR`, if set. Which roots come
/// back depends on the disk, so the contract states the decision for the
/// roots granted under whatever the filesystem answered.
pub fn assess_patch_safety_in_environment(
    action: &ApplyPatchAction,
    policy: AskForApproval,
    sandbox_policy: &SandboxPolicy,
    cwd: &str,
    tmpdir_env: Option<&str>,
    target_os: &str,
) -> (r: SafetyCheck)
    ensures
        exists|roots: Seq<WritableRoot>|
            {
                &&& spec_granted_roots(*sandbox_policy, cwd@, opt_str_view(tmpdir_env), roots)
                &&& r@ == spec_assess_patch(
                    action@.len() == 0,
                    #[trigger] spec_patch_confined_on(action@, *sandbox_policy, cwd@, roots, target_os@),
                    policy,
                    *sandbox_policy,
                    spec_platform_sandbox(target_os@),
                )
            },
{
    let roots = sandbox_policy.get_writable_roots_with_cwd(cwd, tmpdir_env);
    let r = assess_patch_safety(action, policy, sandbox_policy, cwd, &roots, target_os);
    assert(spec_granted_roots(*sandbox_policy, cwd@, opt_str_view(tmpdir_env), roots@));
    r
}

/// The view of a command: its arguments as characters.
pub open spec fn command_view(c: Seq<String>) -> Seq<Seq<char>> {
    c.map_values(|s: String| s@)
}

/// Whether two commands have the same arguments.
fn commands_equal(a: &Vec<String>, b: &Vec<String>) -> (r: bool)
    ensures
        r == (command_view(a@) == command_view(b@)),
{
    if a.len() != b.len() {
        proof {
            assert(command_view(a@).len() != command_view(b@).len());
        }
        return false;
    }
    let mut i: usize = 0;
    while i < a.len()
        invariant
            a@.len() == b@.len(),
            i <= a@.len(),
            forall|j: int| 0 <= j < i ==> (#[trigger] a@[j])@ == b@[j]@,
        decreases a@.len() - i,
    {
        if a[i] != b[i] {
            proof {
                assert(command_view(a@)[i as int] != command_view(b@)[i as int]);
            }
            return false;
        }
        i = i + 1;
    }
    assert(command_view(a@) =~= command_view(b@));
    true
}

/// The commands that the user approved for this session; a set.
pub struct ApprovedCommands {
    commands: Vec<Vec<String>>,
}

impl View for ApprovedCommands {
    type V = Set<Seq<Seq<char>>>;

    closed spec fn view(&self) -> Set<Seq<Seq<char>>> {
        Set::new(
            |c: Seq<Seq<char>>|
                exists|i: int|
                    0 <= i < self.commands@.len() && command_view((#[trigger] self.commands@[i])@)
                        == c,
        )
    }
}

impl ApprovedCommands {
    #[verifier::type_invariant]
    closed spec fn no_command_twice(self) -> bool {
        forall|i: int, j: int|
            0 <= i < self.commands@.len() && 0 <= j < self.commands@.len() && i != j
                ==> command_view((#[trigger] self.commands@[i])@) != command_view(
                (#[trigger] self.commands@[j])@,
            )
    }

    /// No approved command.
    pub fn new() -> (r: Self)
        ensures
            r@ == Set::<Seq<Seq<char>>>::empty(),
    {
        let r = ApprovedCommands { commands: Vec::new() };
        assert(r@ =~= Set::<Seq<Seq<char>>>::empty());
        r
    }

    /// Whether `command` was approved.
    pub fn contains(&self, command: &Vec<String>) -> (r: bool)
        ensures
            r == self@.contains(command_view(command@)),
    {
        let mut i: usize = 0;
        while i < self.commands.len()
            invariant
                i <= self.commands@.len(),
                forall|j: int|
                    0 <= j < i ==> command_view((#[trigger] self.commands@[j])@) != command_view(
                        command@,
                    ),
            decreases self.commands@.len() - i,
        {
            if commands_equal(&self.commands[i], command) {
                assert(command_view(self.commands@[i as int]@) == command_view(command@));
                return true;
            }
            i = i + 1;
        }
        false
    }

    /// Approves `command`; returns whether it was not approved before.
    pub fn insert(&mut self, command: Vec<String>) -> (r: bool)
        ensures
            final(self)@ == old(self)@.insert(command_view(command@)),
            r == !old(self)@.contains(command_view(command@)),
    {
        proof {
            use_type_invariant(&*self);
        }
        if self.contains(&command) {
            return false;
        }
        let mut commands: Vec<Vec<String>> = Vec::new();
        std::mem::swap(&mut commands, &mut self.commands);
        let ghost before = commands@;
        let ghost added = command_view(command@);
        commands.push(command);
        proof {
            assert forall|a: int, b: int|
                0 <= a < commands@.len() && 0 <= b < commands@.len() && a != b implies command_view(
                (#[trigger] commands@[a])@,
            ) != command_view((#[trigger] commands@[b])@) by {
                if a < before.len() && b < before.len() {
                    assert(before[a] == commands@[a]);
                    assert(before[b] == commands@[b]);
                } else if a < before.len() {
                    assert(before[a] == commands@[a]);
                    assert(old(self)@.contains(command_view(before[a]@)));
                } else {
                    assert(before[b] == commands@[b]);
                    assert(old(self)@.contains(command_view(before[b]@)));
                }
            }
        }
        self.commands = commands;
        proof {
            assert forall|c: Seq<Seq<char>>| #[trigger] self@.contains(c) == old(self)@.insert(
                added,
            ).contains(c) by {
                if self@.contains(c) {
                    let i = choose|i: int|
                        0 <= i < self.commands@.len() && command_view(
                            (#[trigger] self.commands@[i])@,
                        ) == c;
                    if i < before.len() {
                        assert(before[i] == self.commands@[i]);
                    }
                }
                if old(self)@.contains(c) {
                    let i = choose|i: int|
                        0 <= i < before.len() && command_view((#[trigger] before[i])@) == c;
                    assert(self.commands@[i] == before[i]);
                }
                if c == added {
                    assert(self.commands@[before.len() as int] == command);
                }
            }
            assert(self@ =~= old(self)@.insert(added));
        }
        true
    }
}

/// The decision on a command that is neither known to be safe nor
/// approved by the user.
pub open spec fn spec_untrusted_command(
    approval_policy: AskForApproval,
    sandbox_policy: SandboxPolicy,
    with_escalated_permissions: bool,
    platform: Option<SandboxType>,
) -> SafetyCheckView {
    match approval_policy {
        AskForApproval::UnlessTrusted => SafetyCheckView::AskUser,
        _ => if sandbox_policy is DangerFullAccess {
            SafetyCheckView::AutoApprove { sandbox_type: SandboxType::NoSandbox }
        } else if approval_policy == AskForApproval::OnRequest {
            if with_escalated_permissions {
                SafetyCheckView::AskUser
            } else {
                match platform {
                    Some(s) => SafetyCheckView::AutoApprove { sandbox_type: s },
                    None => SafetyCheckView::AskUser,
                }
            }
        } else {
            match platform {
                Some(s) => SafetyCheckView::AutoApprove { sandbox_type: s },
                None => if approval_policy == AskForApproval::OnFailure {
                    SafetyCheckView::AskUser
                } else {
                    SafetyCheckView::Reject { reason: untrusted_command_reason() }
                },
            }
        },
    }
}

/// Decides how to run a command that is not trusted: `UnlessTrusted` always
/// asks; full access runs it without a sandbox; otherwise it runs in the
/// platform sandbox, except that an escalation request under `OnRequest`
/// asks, and without a sandbox `Never` rejects while the others ask.
pub fn assess_safety_for_untrusted_command(
    approval_policy: AskForApproval,
    sandbox_policy: &SandboxPolicy,
    with_escalated_permissions: bool,
    target_os: &str,
) -> (r: SafetyCheck)
    ensures
        r@ == spec_untrusted_command(
            approval_policy,
            *sandbox_policy,
            with_escalated_permissions,
            spec_platform_sandbox(target_os@),
        ),
        approval_policy == AskForApproval::UnlessTrusted ==> r@ == SafetyCheckView::AskUser,
        approval_policy != AskForApproval::UnlessTrusted && *sandbox_policy is DangerFullAccess
            ==> r@ == (SafetyCheckView::AutoApprove { sandbox_type: SandboxType::NoSandbox }),
        approval_policy == AskForApproval::OnRequest && !(*sandbox_policy is DangerFullAccess)
            && with_escalated_permissions ==> r@ == SafetyCheckView::AskUser,
        approval_policy == AskForApproval::Never ==> r@ != SafetyCheckView::AskUser,
        r@ == (SafetyCheckView::AutoApprove { sandbox_type: SandboxType::NoSandbox })
            ==> *sandbox_policy is DangerFullAccess,
        approval_policy == AskForApproval::OnRequest && !(*sandbox_policy is DangerFullAccess)
            && !with_escalated_permissions && spec_platform_sandbox(target_os@) is Some ==> r@
            == (SafetyCheckView::AutoApprove {
            sandbox_type: spec_platform_sandbox(target_os@).unwrap(),
        }),
        spec_platform_sandbox(target_os@) is Some ==> !(r@ is Reject),
{
    proof {
        if let Some(sb) = spec_platform_sandbox(target_os@) {
            law_untrusted_on_request_runs_in_platform_sandbox(*sandbox_policy, sb);
            law_untrusted_with_sandbox_never_rejected(
                approval_policy,
                *sandbox_policy,
                with_escalated_permissions,
                sb,
            );
        }
    }
    match (approval_policy, sandbox_policy) {
        (AskForApproval::UnlessTrusted, _) => SafetyCheck::AskUser,
        (AskForApproval::OnFailure, SandboxPolicy::DangerFullAccess)
        | (AskForApproval::Never, SandboxPolicy::DangerFullAccess)
        | (AskForApproval::OnRequest, SandboxPolicy::DangerFullAccess) => SafetyCheck::AutoApprove {
            sandbox_type: SandboxType::NoSandbox,
        },
        (AskForApproval::OnRequest, SandboxPolicy::ReadOnly)
        | (AskForApproval::OnRequest, SandboxPolicy::WorkspaceWrite { .. }) => {
            if with_escalated_permissions {
                SafetyCheck::AskUser
            } else {
                match get_platform_sandbox(target_os) {
                    Some(sandbox_type) => SafetyCheck::AutoApprove { sandbox_type },
                    None => SafetyCheck::AskUser,
                }
            }
        },
        (AskForApproval::Never, SandboxPolicy::ReadOnly)
        | (AskForApproval::Never, SandboxPolicy::WorkspaceWrite { .. })
        | (AskForApproval::OnFailure, SandboxPolicy::ReadOnly)
        | (AskForApproval::OnFailure, SandboxPolicy::WorkspaceWrite { .. }) => {
            match get_platform_sandbox(target_os) {
                Some(sandbox_type) => SafetyCheck::AutoApprove { sandbox_type },
                None => {
                    if matches!(approval_policy, AskForApproval::OnFailure) {
                        SafetyCheck::AskUser
                    } else {
                        SafetyCheck::Reject {
                            reason: "auto-rejected because command is not on trusted list".to_string(),
                        }
                    }
                },
            }
        },
    }
}

/// The decision on a command: a known-safe or approved command runs
/// without a sandbox; any other is decided as an untrusted command.
pub open spec fn spec_assess_command(
    trusted: bool,
    approval_policy: AskForApproval,
    sandbox_policy: SandboxPolicy,
    with_escalated_permissions: bool,
    platform: Option<SandboxType>,
) -> SafetyCheckView {
    if trusted {
        SafetyCheckView::AutoApprove { sandbox_type: SandboxType::NoSandbox }
    } else {
        spec_untrusted_command(approval_policy, sandbox_policy, with_escalated_permissions, platform)
    }
}

/// Decides whether `command` may run without asking the user.
///
/// For a command to be run without a sandbox, one of these must hold: the
/// user approved the command, the command is known to be safe
/// (`is_known_safe`, the verdict of the known-safe command list on
/// `command`), or full access was chosen and `UnlessTrusted` was not.
pub fn assess_command_safety(
    command: &Vec<String>,
    is_known_safe: bool,
    approval_policy: AskForApproval,
    sandbox_policy: &SandboxPolicy,
    approved: &ApprovedCommands,
    with_escalated_permissions: bool,
    target_os: &str,
) -> (r: SafetyCheck)
    ensures
        r@ == spec_assess_command(
            is_known_safe || approved@.contains(command_view(command@)),
            approval_policy,
            *sandbox_policy,
            with_escalated_permissions,
            spec_platform_sandbox(target_os@),
        ),
        approved@.contains(command_view(command@)) || is_known_safe ==> r@
            == (SafetyCheckView::AutoApprove { sandbox_type: SandboxType::NoSandbox }),
        r@ == (SafetyCheckView::AutoApprove { sandbox_type: SandboxType::NoSandbox }) ==> {
            ||| is_known_safe
            ||| approved@.contains(command_view(command@))
            ||| (*sandbox_policy is DangerFullAccess && approval_policy
                != AskForApproval::UnlessTrusted)
        },
        !is_known_safe && !approved@.contains(command_view(command@)) ==> r@
            == spec_untrusted_command(
            approval_policy,
            *sandbox_policy,
            with_escalated_permissions,
            spec_platform_sandbox(target_os@),
        ),
        !is_known_safe && !approved@.contains(command_view(command@)) && spec_platform_sandbox(
            target_os@,
        ) is Some ==> !(r@ is Reject),
{
    proof {
        if let Some(sb) = spec_platform_sandbox(target_os@) {
            law_untrusted_with_sandbox_never_rejected(
                approval_policy,
                *sandbox_policy,
                with_escalated_permissions,
                sb,
            );
        }
    }
    if is_known_safe || approved.contains(command) {
        return SafetyCheck::AutoApprove { sandbox_type: SandboxType::NoSandbox };
    }
    assess_safety_for_untrusted_command(
        approval_policy,
        sandbox_policy,
        with_escalated_permissions,
        target_os,
    )
}

/// Whether a root grants writing to a path depends only on the root's
/// path and read-only subpaths.
pub proof fn lemma_root_allows_by_view(w1: WritableRoot, w2: WritableRoot, t: Seq<Seq<char>>)
    requires
        root_view(w1) == root_view(w2),
    ensures
        spec_root_allows(w1, t) == spec_root_allows(w2, t),
{
    let s1 = w1.read_only_subpaths@;
    let s2 = w2.read_only_subpaths@;
    assert(strings_view(s1).len() == s1.len());
    assert(strings_view(s2).len() == s2.len());
    assert forall|i: int| 0 <= i < s1.len() implies s1[i]@ == s2[i]@ by {
        assert(strings_view(s1)[i] == s1[i]@);
        assert(strings_view(s2)[i] == s2[i]@);
    }
    if spec_root_allows(w1, t) {
        assert forall|i: int| 0 <= i < s2.len() implies !spec_starts_with(
            t,
            spec_components(#[trigger] s2[i]@),
        ) by {
            assert(s1[i]@ == s2[i]@);
        }
    }
    if spec_root_allows(w2, t) {
        assert forall|i: int| 0 <= i < s1.len() implies !spec_starts_with(
            t,
            spec_components(#[trigger] s1[i]@),
        ) by {
            assert(s1[i]@ == s2[i]@);
        }
    }
}

/// Granting more writable roots never turns a patch that stays inside the
/// writable roots into one that does not: with every root of `fewer` also
/// among `more` (same path, same read-only subpaths), a patch confined under
/// `fewer` is confined under `more`.
pub proof fn law_more_roots_keep_patch_constrained(
    changes: Seq<(String, ApplyPatchFileChange)>,
    sandbox_policy: SandboxPolicy,
    cwd: Seq<char>,
    fewer: Seq<WritableRoot>,
    more: Seq<WritableRoot>,
)
    requires
        forall|i: int| 0 <= i < fewer.len() ==> roots_view(more).contains(root_view(#[trigger] fewer[i])),
    ensures
        spec_patch_constrained(changes, sandbox_policy, cwd, fewer) ==> spec_patch_constrained(
            changes,
            sandbox_policy,
            cwd,
            more,
        ),
{
    assert forall|p: Seq<char>| spec_is_path_writable(fewer, cwd, p) implies spec_is_path_writable(
        more,
        cwd,
        p,
    ) by {
        let target = spec_normalize(spec_components(spec_absolute_path(cwd, p)));
        let i = choose|i: int| 0 <= i < fewer.len() && spec_root_allows(#[trigger] fewer[i], target);
        assert(roots_view(more).contains(root_view(fewer[i])));
        let j = choose|j: int| 0 <= j < roots_view(more).len() && roots_view(more)[j] == root_view(fewer[i]);
        assert(roots_view(more)[j] == root_view(more[j]));
        lemma_root_allows_by_view(fewer[i], more[j], target);
        assert(spec_root_allows(more[j], target));
    }
    if spec_patch_constrained(changes, sandbox_policy, cwd, fewer) {
        if sandbox_policy is WorkspaceWrite {
            assert forall|k: int| 0 <= k < changes.len() implies spec_change_writable(
                more,
                cwd,
                #[trigger] changes[k],
            ) by {
                assert(spec_change_writable(fewer, cwd, changes[k]));
            }
        }
    }
}

/// The roots of a workspace-write policy are its configured roots followed
/// by roots that do not depend on the configured ones.
pub proof fn lemma_workspace_roots_split(
    configured: Seq<Seq<char>>,
    cwd: Seq<char>,
    with_slash_tmp: bool,
    exclude_tmpdir_env_var: bool,
    tmpdir_env: Option<Seq<char>>,
)
    ensures
        spec_workspace_roots(configured, cwd, with_slash_tmp, exclude_tmpdir_env_var, tmpdir_env)
            == configured + spec_workspace_roots(
            Seq::empty(),
            cwd,
            with_slash_tmp,
            exclude_tmpdir_env_var,
            tmpdir_env,
        ),
{
    let tail = spec_workspace_roots(
        Seq::empty(),
        cwd,
        with_slash_tmp,
        exclude_tmpdir_env_var,
        tmpdir_env,
    );
    assert(spec_workspace_roots(configured, cwd, with_slash_tmp, exclude_tmpdir_env_var, tmpdir_env)
        =~= configured + tail);
}

/// Configuring more writable roots never turns a patch that stays inside the
/// writable roots into one that does not: on the same disk (directories
/// `dirs`), with the same `cwd`, `$TMPDIR` and exclusions, a patch confined
/// under the roots of `fewer` is confined under the roots of `more`, whose
/// configured roots include those of `fewer`.
pub proof fn law_more_configured_roots_keep_patch_constrained(
    changes: Seq<(String, ApplyPatchFileChange)>,
    fewer: SandboxPolicy,
    more: SandboxPolicy,
    cwd: Seq<char>,
    tmpdir_env: Option<Seq<char>>,
    dirs: Set<Seq<char>>,
    fewer_roots: Seq<WritableRoot>,
    more_roots: Seq<WritableRoot>,
)
    requires
        fewer is WorkspaceWrite,
        more is WorkspaceWrite,
        fewer->exclude_tmpdir_env_var == more->exclude_tmpdir_env_var,
        fewer->exclude_slash_tmp == more->exclude_slash_tmp,
        forall|i: int|
            0 <= i < fewer->writable_roots@.len() ==> strings_view(more->writable_roots@).contains(
                (#[trigger] fewer->writable_roots@[i])@,
            ),
        roots_view(fewer_roots) == spec_roots_on_disk(fewer, cwd, tmpdir_env, dirs),
        roots_view(more_roots) == spec_roots_on_disk(more, cwd, tmpdir_env, dirs),
    ensures
        spec_patch_constrained(changes, fewer, cwd, fewer_roots) ==> spec_patch_constrained(
            changes,
            more,
            cwd,
            more_roots,
        ),
{
    let slash = dirs.contains(crate::policy::slash_tmp());
    let c1 = strings_view(fewer->writable_roots@);
    let c2 = strings_view(more->writable_roots@);
    let w = slash && !fewer->exclude_slash_tmp;
    let e = fewer->exclude_tmpdir_env_var;
    let tail = spec_workspace_roots(Seq::empty(), cwd, w, e, tmpdir_env);
    lemma_workspace_roots_split(c1, cwd, w, e, tmpdir_env);
    lemma_workspace_roots_split(c2, cwd, w, e, tmpdir_env);
    let p1 = spec_root_paths(fewer, cwd, tmpdir_env, slash);
    let p2 = spec_root_paths(more, cwd, tmpdir_env, slash);
    assert(p1 == c1 + tail);
    assert(p2 == c2 + tail);
    let v1 = spec_roots_on_disk(fewer, cwd, tmpdir_env, dirs);
    let v2 = spec_roots_on_disk(more, cwd, tmpdir_env, dirs);
    assert forall|i: int| 0 <= i < fewer_roots.len() implies roots_view(more_roots).contains(
        root_view(#[trigger] fewer_roots[i]),
    ) by {
        assert(roots_view(fewer_roots).len() == fewer_roots.len());
        assert(v1.len() == p1.len());
        assert(i < p1.len());
        assert(roots_view(fewer_roots)[i] == root_view(fewer_roots[i]));
        assert(v1[i].0 == p1[i]);
        let j: int = if i < c1.len() {
            assert(c1[i] == (fewer->writable_roots@[i])@);
            assert(c2.contains(c1[i]));
            choose|j: int| 0 <= j < c2.len() && c2[j] == c1[i]
        } else {
            c2.len() + (i - c1.len())
        };
        if i >= c1.len() {
            assert(p1[i] == tail[i - c1.len()]);
            assert(p2[j] == tail[i - c1.len()]);
        } else {
            assert(p1[i] == c1[i]);
            assert(p2[j] == c2[j]);
        }
        assert(p2[j] == p1[i]);
        assert(roots_view(more_roots).len() == more_roots.len());
        assert(v2.len() == p2.len());
        assert(v2[j] == v1[i]);
        assert(roots_view(more_roots)[j] == v2[j]);
    }
    law_more_roots_keep_patch_constrained(changes, more, cwd, fewer_roots, more_roots);
    if spec_patch_constrained(changes, fewer, cwd, fewer_roots) {
        assert forall|k: int| 0 <= k < changes.len() implies spec_change_writable(
            fewer_roots,
            cwd,
            #[trigger] changes[k],
        ) by {}
    }
}

/// Paths are judged after being made absolute against `cwd`: for an
/// absolute `cwd`, a path and its join onto `cwd` are equally writable.
pub proof fn law_relative_path_judged_as_joined(roots: Seq<WritableRoot>, cwd: Seq<char>, p: Seq<char>)
    requires
        spec_is_absolute(cwd),
    ensures
        spec_is_path_writable(roots, cwd, p) == spec_is_path_writable(roots, cwd, spec_join(cwd, p)),
{
    let joined = spec_join(cwd, p);
    if !spec_is_absolute(p) {
        if cwd.len() > 0 && cwd.last() != '/' {
            assert(joined[0] == cwd[0]);
        } else {
            assert(joined[0] == cwd[0]);
        }
    }
    assert(spec_absolute_path(cwd, joined) == spec_absolute_path(cwd, p));
}

/// Once a command is approved for the session, it is auto-approved without a
/// sandbox whatever the policies and whether or not it is known to be safe.
pub proof fn law_approved_command_runs_unsandboxed(
    approved: Set<Seq<Seq<char>>>,
    command: Seq<Seq<char>>,
    is_known_safe: bool,
    approval_policy: AskForApproval,
    sandbox_policy: SandboxPolicy,
    with_escalated_permissions: bool,
    platform: Option<SandboxType>,
)
    ensures
        spec_assess_command(
            is_known_safe || approved.insert(command).contains(command),
            approval_policy,
            sandbox_policy,
            with_escalated_permissions,
            platform,
        ) == (SafetyCheckView::AutoApprove { sandbox_type: SandboxType::NoSandbox }),
{
    assert(approved.insert(command).contains(command));
}

/// Under a workspace-write policy the working directory is writable: with
/// the roots that the policy grants for `cwd`, a path that lies, once made
/// absolute and normalized, under `cwd` but not under `cwd/.git` is writable.
pub proof fn law_workspace_is_writable(
    policy: SandboxPolicy,
    cwd: Seq<char>,
    tmpdir_env: Option<Seq<char>>,
    roots: Seq<WritableRoot>,
    p: Seq<char>,
)
    requires
        policy is WorkspaceWrite,
        spec_granted_roots(policy, cwd, tmpdir_env, roots),
        spec_starts_with(
            spec_normalize(spec_components(spec_absolute_path(cwd, p))),
            spec_components(cwd),
        ),
        !spec_starts_with(
            spec_normalize(spec_components(spec_absolute_path(cwd, p))),
            spec_components(spec_join(cwd, dot_git())),
        ),
    ensures
        spec_is_path_writable(roots, cwd, p),
{
    let target = spec_normalize(spec_components(spec_absolute_path(cwd, p)));
    let (slash, gits) = choose|slash_tmp_is_dir: bool, git_dirs: Seq<bool>|
        {
            &&& git_dirs.len() == spec_root_paths(policy, cwd, tmpdir_env, slash_tmp_is_dir).len()
            &&& roots_view(roots) == #[trigger] spec_built_roots(
                spec_root_paths(policy, cwd, tmpdir_env, slash_tmp_is_dir),
                git_dirs,
            )
        };
    let paths = spec_root_paths(policy, cwd, tmpdir_env, slash);
    let built = spec_built_roots(paths, gits);
    let k = strings_view(policy->writable_roots@).len() as int;
    assert(paths[k] == cwd);
    assert(roots_view(roots).len() == roots.len());
    assert(0 <= k < roots.len());
    assert(roots_view(roots)[k] == root_view(roots[k]));
    assert(built[k].0 == cwd);
    assert(roots[k].root@ == cwd);
    let sub = roots[k].read_only_subpaths@;
    assert(strings_view(sub) == built[k].1);
    assert forall|i: int| 0 <= i < sub.len() implies !spec_starts_with(
        target,
        spec_components(#[trigger] sub[i]@),
    ) by {
        assert(strings_view(sub)[i] == sub[i]@);
        assert(sub[i]@ == spec_join(cwd, dot_git()));
    }
    assert(spec_root_allows(roots[k], target));
}

/// Every path that one change writes is granted by some root: the change's
/// own path, whatever kind of change it is, and the destination of a move.
pub open spec fn spec_writes_granted(
    roots: Seq<WritableRoot>,
    cwd: Seq<char>,
    entry: (String, ApplyPatchFileChange),
) -> bool {
    &&& exists|i: int|
        0 <= i < roots.len() && spec_root_allows(
            #[trigger] roots[i],
            spec_normalize(spec_components(spec_absolute_path(cwd, entry.0@))),
        )
    &&& (move_destination(entry.1) matches Some(d) ==> exists|i: int|
        0 <= i < roots.len() && spec_root_allows(
            #[trigger] roots[i],
            spec_normalize(spec_components(spec_absolute_path(cwd, d@))),
        ))
}

/// Where a change moves its file to, if it moves it.
pub open spec fn move_destination(change: ApplyPatchFileChange) -> Option<String> {
    match change {
        ApplyPatchFileChange::Update { move_path, .. } => move_path,
        _ => None,
    }
}

/// Under a workspace-write policy a patch is confined exactly when, for every
/// change of any kind, the change's own path and (for a move) its
/// destination are granted by some writable root, once made absolute
/// against `cwd` and normalized.
pub proof fn law_patch_confined_change_by_change(
    changes: Seq<(String, ApplyPatchFileChange)>,
    sandbox_policy: SandboxPolicy,
    cwd: Seq<char>,
    roots: Seq<WritableRoot>,
)
    requires
        sandbox_policy is WorkspaceWrite,
    ensures
        spec_patch_constrained(changes, sandbox_policy, cwd, roots) <==> forall|i: int|
            0 <= i < changes.len() ==> spec_writes_granted(roots, cwd, #[trigger] changes[i]),
{
    assert forall|i: int| 0 <= i < changes.len() implies spec_change_writable(
        roots,
        cwd,
        #[trigger] changes[i],
    ) == spec_writes_granted(roots, cwd, changes[i]) by {

    }
}

/// A non-empty patch confined to the writable roots runs in the platform
/// sandbox wherever the platform has one, whatever the approval and
/// sandbox policies.
pub proof fn law_confined_patch_runs_in_platform_sandbox(
    constrained: bool,
    policy: AskForApproval,
    sandbox_policy: SandboxPolicy,
    sandbox: SandboxType,
)
    ensures
        constrained ==> spec_assess_patch(false, constrained, policy, sandbox_policy, Some(sandbox))
            == (SafetyCheckView::AutoApprove { sandbox_type: sandbox }),
{
}

/// An untrusted command is never rejected where the platform has a sandbox.
pub proof fn law_untrusted_with_sandbox_never_rejected(
    approval_policy: AskForApproval,
    sandbox_policy: SandboxPolicy,
    with_escalated_permissions: bool,
    sandbox: SandboxType,
)
    ensures
        !(spec_untrusted_command(
            approval_policy,
            sandbox_policy,
            with_escalated_permissions,
            Some(sandbox),
        ) is Reject),
{
}

/// Under `OnRequest`, an untrusted command that asks for no escalation runs
/// in the platform sandbox wherever there is one, under read-only and
/// workspace-write alike.
pub proof fn law_untrusted_on_request_runs_in_platform_sandbox(
    sandbox_policy: SandboxPolicy,
    sandbox: SandboxType,
)
    ensures
        !(sandbox_policy is DangerFullAccess) ==> spec_untrusted_command(
            AskForApproval::OnRequest,
            sandbox_policy,
            false,
            Some(sandbox),
        ) == (SafetyCheckView::AutoApprove { sandbox_type: sandbox }),
{
}

/// An untrusted command is decided alike under read-only and under any
/// workspace-write policy: which of the two sandboxed policies is chosen
/// does not matter.
pub proof fn law_untrusted_same_under_both_sandboxed_policies(
    approval_policy: AskForApproval,
    workspace: SandboxPolicy,
    with_escalated_permissions: bool,
    platform: Option<SandboxType>,
)
    requires
        workspace is WorkspaceWrite,
    ensures
        spec_untrusted_command(
            approval_policy,
            SandboxPolicy::ReadOnly,
            with_escalated_permissions,
            platform,
        ) == spec_untrusted_command(approval_policy, workspace, with_escalated_permissions, platform),
{
}

/// A command that is neither known safe nor approved is decided exactly as
/// an untrusted command.
pub proof fn law_unapproved_command_decided_as_untrusted(
    approval_policy: AskForApproval,
    sandbox_policy: SandboxPolicy,
    with_escalated_permissions: bool,
    platform: Option<SandboxType>,
)
    ensures
        spec_assess_command(
            false,
            approval_policy,
            sandbox_policy,
            with_escalated_permissions,
            platform,
        ) == spec_untrusted_command(
            approval_policy,
            sandbox_policy,
            with_escalated_permissions,
            platform,
        ),
{
}

/// The decision on a non-empty patch, case by case: one that is not
/// confined is rejected under `Never` and asked about under `UnlessTrusted`
/// and `OnRequest`; one that is confined (or any under `OnFailure`) where
/// there is no platform sandbox runs unsandboxed under full access and is
/// asked about otherwise.
pub proof fn law_patch_decision_table(
    constrained: bool,
    policy: AskForApproval,
    sandbox_policy: SandboxPolicy,
    platform: Option<SandboxType>,
)
    ensures
        !constrained && policy == AskForApproval::Never ==> spec_assess_patch(
            false,
            constrained,
            policy,
            sandbox_policy,
            platform,
        ) == (SafetyCheckView::Reject { reason: outside_project_reason() }),
        !constrained && (policy == AskForApproval::UnlessTrusted || policy
            == AskForApproval::OnRequest) ==> spec_assess_patch(
            false,
            constrained,
            policy,
            sandbox_policy,
            platform,
        ) == SafetyCheckView::AskUser,
        (constrained || policy == AskForApproval::OnFailure) && platform is None
            ==> spec_assess_patch(false, constrained, policy, sandbox_policy, platform) == if sandbox_policy is DangerFullAccess {
            SafetyCheckView::AutoApprove { sandbox_type: SandboxType::NoSandbox }
        } else {
            SafetyCheckView::AskUser
        },
        policy == AskForApproval::OnFailure && platform is Some ==> spec_assess_patch(
            false,
            constrained,
            policy,
            sandbox_policy,
            platform,
        ) == (SafetyCheckView::AutoApprove { sandbox_type: platform.unwrap() }),
{
}

/// The decision on an untrusted command under a sandboxed policy (read-only
/// or workspace-write), case by case: with a platform sandbox, `Never` and
/// `OnFailure` run it there; without one, `Never` rejects it and `OnFailure`
/// asks; `OnRequest` asks whenever escalation is requested.
pub proof fn law_untrusted_decision_table(
    approval_policy: AskForApproval,
    sandbox_policy: SandboxPolicy,
    with_escalated_permissions: bool,
    platform: Option<SandboxType>,
)
    requires
        !(sandbox_policy is DangerFullAccess),
    ensures
        (approval_policy == AskForApproval::Never || approval_policy == AskForApproval::OnFailure)
            && platform is Some ==> spec_untrusted_command(
            approval_policy,
            sandbox_policy,
            with_escalated_permissions,
            platform,
        ) == (SafetyCheckView::AutoApprove { sandbox_type: platform.unwrap() }),
        approval_policy == AskForApproval::Never && platform is None ==> spec_untrusted_command(
            approval_policy,
            sandbox_policy,
            with_escalated_permissions,
            platform,
        ) == (SafetyCheckView::Reject { reason: untrusted_command_reason() }),
        approval_policy == AskForApproval::OnFailure && platform is None ==> spec_untrusted_command(
            approval_policy,
            sandbox_policy,
            with_escalated_permissions,
            platform,
        ) == SafetyCheckView::AskUser,
        approval_policy == AskForApproval::OnRequest && with_escalated_permissions
            ==> spec_untrusted_command(
            approval_policy,
            sandbox_policy,
            with_escalated_permissions,
            platform,
        ) == SafetyCheckView::AskUser,
        approval_policy == AskForApproval::OnRequest && !with_escalated_permissions && platform is None
            ==> spec_untrusted_command(
            approval_policy,
            sandbox_policy,
            with_escalated_permissions,
            platform,
        ) == SafetyCheckView::AskUser,
{
}

} // verus!
