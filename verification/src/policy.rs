//! The approval and sandbox policies that safety decisions are made under,
//! and the writable roots that a workspace-write policy grants.
use vstd::prelude::*;
use crate::path::{chars_list_view, components, join, spec_components, spec_join, spec_starts_with, starts_with};
use crate::text::{chars_of, string_from_chars};

verus! {

/// When the user is asked to approve a command or a patch.
#[derive(Debug, Clone, Copy, PartialEq, Eq, Structural)]
pub enum AskForApproval {
    /// Only commands and patches that are trusted run without asking.
    UnlessTrusted,
    /// Run in a sandbox; ask only when that fails.
    OnFailure,
    /// The model decides when to ask.
    OnRequest,
    /// Never ask; what cannot be approved automatically is rejected.
    Never,
}

/// The sandbox mechanism that enforces a policy.
#[derive(Debug, Clone, Copy, PartialEq, Eq, Structural)]
pub enum SandboxType {
    /// Run without any sandbox.
    NoSandbox,
    /// macOS Seatbelt.
    MacosSeatbelt,
    /// Linux seccomp/landlock.
    LinuxSeccomp,
}

/// What commands and patches may touch.
#[derive(Debug, Clone, PartialEq, Eq)]
pub enum SandboxPolicy {
    /// No restrictions at all.
    DangerFullAccess,
    /// Read-only access to the whole disk.
    ReadOnly,
    /// Read access everywhere, write access under the writable roots.
    WorkspaceWrite {
        writable_roots: Vec<String>,
        network_access: bool,
        exclude_tmpdir_env_var: bool,
        exclude_slash_tmp: bool,
    },
}

/// A directory that may be written under, except below its read-only subpaths.
#[derive(Debug, Clone, PartialEq, Eq)]
pub struct WritableRoot {
    pub root: String,
    pub read_only_subpaths: Vec<String>,
}

/// Whether a root grants writing to the path with components `path`:
/// the path is under the root and under none of its read-only subpaths.
pub open spec fn spec_root_allows(root: WritableRoot, path: Seq<Seq<char>>) -> bool {
    &&& spec_starts_with(path, spec_components(root.root@))
    &&& forall|i: int|
        0 <= i < root.read_only_subpaths@.len() ==> !spec_starts_with(
            path,
            spec_components(#[trigger] root.read_only_subpaths@[i]@),
        )
}

/// The view of a list of strings.
pub open spec fn strings_view(v: Seq<String>) -> Seq<Seq<char>> {
    v.map_values(|s: String| s@)
}

/// The view of an optional string.
pub open spec fn opt_str_view(o: Option<&str>) -> Option<Seq<char>> {
    match o {
        Some(t) => Some(t@),
        None => None,
    }
}

/// `/tmp`.
pub open spec fn slash_tmp() -> Seq<char> {
    seq!['/', 't', 'm', 'p']
}

/// `.git`.
pub open spec fn dot_git() -> Seq<char> {
    seq!['.', 'g', 'i', 't']
}

/// The roots that a workspace-write policy grants: the configured ones,
/// then `cwd`, then `/tmp` where it was found to be a directory and is not
/// excluded, then `$TMPDIR` where it is set, non-empty and not excluded.
pub open spec fn spec_workspace_roots(
    configured: Seq<Seq<char>>,
    cwd: Seq<char>,
    with_slash_tmp: bool,
    exclude_tmpdir_env_var: bool,
    tmpdir_env: Option<Seq<char>>,
) -> Seq<Seq<char>> {
    let base = configured.push(cwd);
    let with_tmp = if with_slash_tmp {
        base.push(slash_tmp())
    } else {
        base
    };
    match tmpdir_env {
        Some(t) => if !exclude_tmpdir_env_var && t.len() > 0 {
            with_tmp.push(t)
        } else {
            with_tmp
        },
        None => with_tmp,
    }
}

/// A writable root as values: its path and its read-only subpaths.
pub open spec fn root_view(w: WritableRoot) -> (Seq<char>, Seq<Seq<char>>) {
    (w.root@, strings_view(w.read_only_subpaths@))
}

/// The values of a list of writable roots.
pub open spec fn roots_view(r: Seq<WritableRoot>) -> Seq<(Seq<char>, Seq<Seq<char>>)> {
    r.map_values(|w: WritableRoot| root_view(w))
}

/// The root paths that `policy` grants for `cwd`, given whether `/tmp` is a
/// directory: none for read-only and full access; for workspace-write those
/// of `spec_workspace_roots`, with `/tmp` where it is a directory and not
/// excluded.
pub open spec fn spec_root_paths(
    policy: SandboxPolicy,
    cwd: Seq<char>,
    tmpdir_env: Option<Seq<char>>,
    slash_tmp_is_dir: bool,
) -> Seq<Seq<char>> {
    match policy {
        SandboxPolicy::WorkspaceWrite {
            writable_roots,
            exclude_tmpdir_env_var,
            exclude_slash_tmp,
            ..
        } => spec_workspace_roots(
            strings_view(writable_roots@),
            cwd,
            slash_tmp_is_dir && !exclude_slash_tmp,
            exclude_tmpdir_env_var,
            tmpdir_env,
        ),
        _ => Seq::empty(),
    }
}

/// Writable roots at `paths`, given for each whether its `.git` is a
/// directory: the root's read-only subpaths are `[path/.git]` exactly when it
/// is, and empty otherwise.
pub open spec fn spec_built_roots(paths: Seq<Seq<char>>, git_dirs: Seq<bool>) -> Seq<
    (Seq<char>, Seq<Seq<char>>),
> {
    Seq::new(
        paths.len(),
        |i: int|
            (
                paths[i],
                if git_dirs[i] {
                    seq![spec_join(paths[i], dot_git())]
                } else {
                    Seq::empty()
                },
            ),
    )
}

/// The writable roots that `policy` grants for `cwd` on a disk whose
/// directories are `dirs`.
pub open spec fn spec_roots_on_disk(
    policy: SandboxPolicy,
    cwd: Seq<char>,
    tmpdir_env: Option<Seq<char>>,
    dirs: Set<Seq<char>>,
) -> Seq<(Seq<char>, Seq<Seq<char>>)> {
    let paths = spec_root_paths(policy, cwd, tmpdir_env, dirs.contains(slash_tmp()));
    spec_built_roots(
        paths,
        paths.map_values(|p: Seq<char>| dirs.contains(spec_join(p, dot_git()))),
    )
}

/// `r` are the writable roots that `policy` grants for `cwd` for some answers
/// of the filesystem to whether `/tmp` and each root's `.git` are directories.
pub open spec fn spec_granted_roots(
    policy: SandboxPolicy,
    cwd: Seq<char>,
    tmpdir_env: Option<Seq<char>>,
    r: Seq<WritableRoot>,
) -> bool {
    exists|slash_tmp_is_dir: bool, git_dirs: Seq<bool>|
        {
            &&& git_dirs.len() == spec_root_paths(policy, cwd, tmpdir_env, slash_tmp_is_dir).len()
            &&& roots_view(r) == #[trigger] spec_built_roots(
                spec_root_paths(policy, cwd, tmpdir_env, slash_tmp_is_dir),
                git_dirs,
            )
        }
}

/// Roots built from a disk's directories are granted roots: the answers are
/// whether `/tmp` and each root's `.git` are among those directories.
pub proof fn lemma_roots_on_disk_are_granted(
    policy: SandboxPolicy,
    cwd: Seq<char>,
    tmpdir_env: Option<Seq<char>>,
    dirs: Set<Seq<char>>,
    r: Seq<WritableRoot>,
)
    requires
        roots_view(r) == spec_roots_on_disk(policy, cwd, tmpdir_env, dirs),
    ensures
        spec_granted_roots(policy, cwd, tmpdir_env, r),
{
    let slash = dirs.contains(slash_tmp());
    let paths = spec_root_paths(policy, cwd, tmpdir_env, slash);
    let gits = paths.map_values(|p: Seq<char>| dirs.contains(spec_join(p, dot_git())));
    assert(gits.len() == paths.len());
    assert(roots_view(r) == spec_built_roots(paths, gits));
}

/// Writable roots at `paths`, the root at `paths[i]` with its `.git` as
/// read-only subpath exactly when `git_dirs[i]`.
pub fn roots_with_git_dirs(paths: &Vec<String>, git_dirs: &Vec<bool>) -> (r: Vec<WritableRoot>)
    requires
        paths@.len() == git_dirs@.len(),
    ensures
        roots_view(r@) == spec_built_roots(strings_view(paths@), git_dirs@),
{
    let git_chars = vec!['.', 'g', 'i', 't'];
    assert(git_chars@ =~= dot_git());
    let mut out: Vec<WritableRoot> = Vec::new();
    let mut k: usize = 0;
    while k < paths.len()
        invariant
            paths@.len() == git_dirs@.len(),
            k <= paths@.len(),
            git_chars@ == dot_git(),
            roots_view(out@) == spec_built_roots(strings_view(paths@), git_dirs@).take(k as int),
        decreases paths@.len() - k,
    {
        let root = paths[k].clone();
        let mut subpaths: Vec<String> = Vec::new();
        if git_dirs[k] {
            let root_chars = chars_of(root.as_str());
            let git_path_chars = join(&root_chars, &git_chars);
            subpaths.push(string_from_chars(&git_path_chars));
            assert(strings_view(subpaths@) =~= seq![spec_join(paths@[k as int]@, dot_git())]);
        } else {
            assert(strings_view(subpaths@) =~= Seq::<Seq<char>>::empty());
        }
        let ghost before = roots_view(out@);
        out.push(WritableRoot { root, read_only_subpaths: subpaths });
        proof {
            let all = spec_built_roots(strings_view(paths@), git_dirs@);
            assert(roots_view(out@) =~= before.push(all[k as int]));
            assert(all.take(k as int + 1) =~= all.take(k as int).push(all[k as int]));
        }
        k = k + 1;
    }
    assert(spec_built_roots(strings_view(paths@), git_dirs@).take(paths@.len() as int)
        =~= spec_built_roots(strings_view(paths@), git_dirs@));
    out
}

/// Whether `p` names a directory on disk (`std::path::Path::is_dir`).
/// Its result depends on the filesystem, so nothing is stated of it.
#[verifier::external_body]
fn path_is_dir(p: &str) -> bool {
    std::path::Path::new(p).is_dir()
}

impl WritableRoot {
    /// Whether this root grants writing to the path with components `path`.
    pub fn allows_components(&self, path: &Vec<Vec<char>>) -> (r: bool)
        ensures
            r == spec_root_allows(*self, chars_list_view(path@)),
    {
        let root_chars = chars_of(self.root.as_str());
        let root_comps = components(&root_chars);
        if !starts_with(path, &root_comps) {
            return false;
        }
        let mut i: usize = 0;
        while i < self.read_only_subpaths.len()
            invariant
                i <= self.read_only_subpaths@.len(),
                forall|j: int|
                    0 <= j < i ==> !spec_starts_with(
                        chars_list_view(path@),
                        spec_components(#[trigger] self.read_only_subpaths@[j]@),
                    ),
            decreases self.read_only_subpaths@.len() - i,
        {
            let sub_chars = chars_of(self.read_only_subpaths[i].as_str());
            let sub_comps = components(&sub_chars);
            if starts_with(path, &sub_comps) {
                return false;
            }
            i = i + 1;
        }
        true
    }

    /// Whether this root grants writing to `path`: `path` is under the root
    /// and under none of its read-only subpaths, comparing components.
    pub fn is_path_writable(&self, path: &str) -> (r: bool)
        ensures
            r == spec_root_allows(*self, spec_components(path@)),
    {
        let p = chars_of(path);
        let comps = components(&p);
        self.allows_components(&comps)
    }
}

impl SandboxPolicy {
    /// The root paths of this policy for `cwd`, given whether `/tmp` is a
    /// directory (see `spec_root_paths`).
    pub fn root_paths(&self, cwd: &str, tmpdir_env: Option<&str>, slash_tmp_is_dir: bool) -> (r:
        Vec<String>)
        ensures
            strings_view(r@) == spec_root_paths(
                *self,
                cwd@,
                opt_str_view(tmpdir_env),
                slash_tmp_is_dir,
            ),
    {
        match self {
            SandboxPolicy::DangerFullAccess => Vec::new(),
            SandboxPolicy::ReadOnly => Vec::new(),
            SandboxPolicy::WorkspaceWrite {
                writable_roots,
                exclude_tmpdir_env_var,
                exclude_slash_tmp,
                ..
            } => {
                let mut roots: Vec<String> = Vec::new();
                let mut i: usize = 0;
                while i < writable_roots.len()
                    invariant
                        i <= writable_roots@.len(),
                        strings_view(roots@) == strings_view(writable_roots@.take(i as int)),
                    decreases writable_roots@.len() - i,
                {
                    let ghost before = strings_view(roots@);
                    roots.push(writable_roots[i].clone());
                    proof {
                        assert(strings_view(roots@) =~= before.push(writable_roots@[i as int]@));
                        assert(writable_roots@.take(i as int + 1).drop_last() =~= writable_roots@.take(
                            i as int,
                        ));
                        assert(strings_view(writable_roots@.take(i as int + 1)) =~= strings_view(
                            writable_roots@.take(i as int),
                        ).push(writable_roots@[i as int]@));
                    }
                    i = i + 1;
                }
                assert(writable_roots@.take(writable_roots@.len() as int) =~= writable_roots@);
                let ghost configured = strings_view(roots@);
                let cwd_chars = chars_of(cwd);
                roots.push(string_from_chars(&cwd_chars));
                assert(strings_view(roots@) =~= configured.push(cwd@));
                if slash_tmp_is_dir && !*exclude_slash_tmp {
                    let tmp_chars = vec!['/', 't', 'm', 'p'];
                    assert(tmp_chars@ =~= slash_tmp());
                    let ghost before = strings_view(roots@);
                    roots.push(string_from_chars(&tmp_chars));
                    assert(strings_view(roots@) =~= before.push(slash_tmp()));
                }
                if !*exclude_tmpdir_env_var {
                    if let Some(t) = tmpdir_env {
                        let t_chars = chars_of(t);
                        if t_chars.len() > 0 {
                            let ghost before = strings_view(roots@);
                            roots.push(string_from_chars(&t_chars));
                            assert(strings_view(roots@) =~= before.push(t@));
                        }
                    }
                }
                roots
            },
        }
    }

    /// The writable roots of this policy for the working directory `cwd`.
    /// `tmpdir_env` is the value of the `TMPDIR` environment variable, if set.
    /// Whether `/tmp` and each root's `.git` are directories is read from
    /// disk, so the contract states the roots for whatever answers came back.
    /// Paths in this library are Unix paths, so `/tmp` is considered on every
    /// platform where it is a directory.
    pub fn get_writable_roots_with_cwd(&self, cwd: &str, tmpdir_env: Option<&str>) -> (r: Vec<
        WritableRoot,
    >)
        ensures
            spec_granted_roots(*self, cwd@, opt_str_view(tmpdir_env), r@),
    {
        let slash_tmp_is_dir = match self {
            SandboxPolicy::WorkspaceWrite { exclude_slash_tmp, .. } => {
                if *exclude_slash_tmp {
                    false
                } else {
                    let tmp_chars = vec!['/', 't', 'm', 'p'];
                    let tmp = string_from_chars(&tmp_chars);
                    path_is_dir(tmp.as_str())
                }
            },
            _ => false,
        };
        let paths = self.root_paths(cwd, tmpdir_env, slash_tmp_is_dir);
        let git_chars = vec!['.', 'g', 'i', 't'];
        let mut git_dirs: Vec<bool> = Vec::new();
        let mut k: usize = 0;
        while k < paths.len()
            invariant
                k <= paths@.len(),
                git_dirs@.len() == k,
            decreases paths@.len() - k,
        {
            let root_chars = chars_of(paths[k].as_str());
            let git_path = string_from_chars(&join(&root_chars, &git_chars));
            git_dirs.push(path_is_dir(git_path.as_str()));
            k = k + 1;
        }
        let r = roots_with_git_dirs(&paths, &git_dirs);
        proof {
            let ps = spec_root_paths(*self, cwd@, opt_str_view(tmpdir_env), slash_tmp_is_dir);
            assert(roots_view(r@) == spec_built_roots(ps, git_dirs@));
        }
        r
    }
}

} // verus!
