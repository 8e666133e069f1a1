//! The file changes that an `apply_patch` call would make, keyed by path.
use vstd::prelude::*;
use crate::text::{chars_of, string_from_chars};

verus! {

/// One file change of a patch.
#[derive(Debug, Clone, PartialEq, Eq)]
pub enum ApplyPatchFileChange {
    Add { content: String },
    Delete { content: String },
    Update { unified_diff: String, move_path: Option<String>, new_content: String },
}

/// The changes of a patch: at most one change per path.
pub struct ApplyPatchAction {
    changes: Vec<(String, ApplyPatchFileChange)>,
}

/// No path occurs twice among the entries.
pub open spec fn distinct_paths(s: Seq<(String, ApplyPatchFileChange)>) -> bool {
    forall|i: int, j: int|
        0 <= i < s.len() && 0 <= j < s.len() && i != j ==> (#[trigger] s[i]).0@ != (
        #[trigger] s[j]).0@
}

impl View for ApplyPatchAction {
    type V = Seq<(String, ApplyPatchFileChange)>;

    closed spec fn view(&self) -> Seq<(String, ApplyPatchFileChange)> {
        self.changes@
    }
}

impl ApplyPatchAction {
    #[verifier::type_invariant]
    closed spec fn paths_are_distinct(self) -> bool {
        distinct_paths(self.changes@)
    }

    /// The patch with no changes.
    pub fn new() -> (r: Self)
        ensures
            r@ == Seq::<(String, ApplyPatchFileChange)>::empty(),
    {
        ApplyPatchAction { changes: Vec::new() }
    }

    /// A patch that adds one file at `path` with `content`.
    pub fn new_add_for_test(path: &str, content: String) -> (r: Self)
        ensures
            r@.len() == 1,
            r@[0].0@ == path@,
            r@[0].1 == (ApplyPatchFileChange::Add { content }),
    {
        let p = chars_of(path);
        let mut changes: Vec<(String, ApplyPatchFileChange)> = Vec::new();
        changes.push((string_from_chars(&p), ApplyPatchFileChange::Add { content }));
        ApplyPatchAction { changes }
    }

    /// Whether the patch changes no file.
    pub fn is_empty(&self) -> (r: bool)
        ensures
            r == (self@.len() == 0),
    {
        self.changes.len() == 0
    }

    /// The changes, one entry per path.
    pub fn changes(&self) -> (r: &Vec<(String, ApplyPatchFileChange)>)
        ensures
            r@ == self@,
            distinct_paths(r@),
    {
        proof {
            use_type_invariant(self);
        }
        &self.changes
    }

    /// Sets the change for `path`, replacing the change that was there.
    /// Returns the replaced change, if any.
    pub fn insert(&mut self, path: String, change: ApplyPatchFileChange) -> (r: Option<
        ApplyPatchFileChange,
    >)
        ensures
            distinct_paths(final(self)@),
            match r {
                Some(prev) => exists|i: int|
                    0 <= i < old(self)@.len() && (#[trigger] old(self)@[i]).0@ == path@
                        && prev == old(self)@[i].1 && final(self)@ == old(self)@.update(
                        i,
                        (path, change),
                    ),
                None => (forall|i: int|
                    0 <= i < old(self)@.len() ==> (#[trigger] old(self)@[i]).0@ != path@)
                    && final(self)@ == old(self)@.push((path, change)),
            },
    {
        proof {
            use_type_invariant(&*self);
        }
        let mut changes: Vec<(String, ApplyPatchFileChange)> = Vec::new();
        std::mem::swap(&mut changes, &mut self.changes);
        let ghost before = changes@;
        let mut i: usize = 0;
        while i < changes.len()
            invariant
                changes@ == before,
                before == old(self)@,
                distinct_paths(before),
                i <= changes@.len(),
                forall|j: int| 0 <= j < i ==> (#[trigger] before[j]).0@ != path@,
            decreases changes@.len() - i,
        {
            if changes[i].0 == path {
                assert(before[i as int].0@ == path@);
                let prev = changes.remove(i);
                assert(prev == before[i as int]);
                changes.insert(i, (path, change));
                proof {
                    assert(changes@ =~= before.update(i as int, (path, change)));
                    assert forall|a: int, b: int|
                        0 <= a < changes@.len() && 0 <= b < changes@.len() && a != b implies (
                        #[trigger] changes@[a]).0@ != (#[trigger] changes@[b]).0@ by {
                        if a != i && b != i {
                            assert(before[a] == changes@[a]);
                            assert(before[b] == changes@[b]);
                        } else if a == i {
                            assert(before[b] == changes@[b]);
                        } else {
                            assert(before[a] == changes@[a]);
                        }
                    }
                }
                self.changes = changes;
                return Some(prev.1);
            }
            i = i + 1;
        }
        changes.push((path, change));
        proof {
            assert forall|a: int, b: int|
                0 <= a < changes@.len() && 0 <= b < changes@.len() && a != b implies (
                #[trigger] changes@[a]).0@ != (#[trigger] changes@[b]).0@ by {
                if a < before.len() && b < before.len() {
                    assert(before[a] == changes@[a]);
                    assert(before[b] == changes@[b]);
                } else if a < before.len() {
                    assert(before[a] == changes@[a]);
                } else {
                    assert(before[b] == changes@[b]);
                }
            }
        }
        self.changes = changes;
        None
    }
}

impl Default for ApplyPatchAction {
    fn default() -> (r: Self)
        ensures
            r@ == Seq::<(String, ApplyPatchFileChange)>::empty(),
    {
        ApplyPatchAction::new()
    }
}

} // verus!
