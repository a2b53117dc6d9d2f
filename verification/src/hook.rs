//! The `post-checkout` hook: where it points, whether it works, and when
//! it makes the links.

use vstd::prelude::*;
use crate::path::{join, path_join, path_starts_with, path_starts_with_exec};
use crate::repo::opt_view;
use crate::text::{string_views};

verus! {

/// The paths a hook is permitted to point at, in the order of preference:
/// `~/.local/bin/wt`, `~/.nix-profile/bin/wt` (when `HOME` is set), then
/// `/run/current-system/sw/bin/wt`.
///
/// A hook must point to a path that does not change. Nix profile and system
/// paths are symbolic links that nix updates in place, so they are safe.
pub open spec fn stable_candidates_spec(home: Option<Seq<char>>) -> Seq<Seq<char>> {
    let system = "/run/current-system/sw/bin/wt"@;
    match home {
        Some(h) => seq![
            path_join(path_join(path_join(h, ".local"@), "bin"@), "wt"@),
            path_join(path_join(path_join(h, ".nix-profile"@), "bin"@), "wt"@),
            system,
        ],
        None => seq![system],
    }
}

pub fn stable_candidates(home: Option<String>) -> (r: Vec<String>)
    ensures
        string_views(r@) == stable_candidates_spec(opt_view(home)),
{
    let mut r: Vec<String> = Vec::new();
    if let Some(h) = home {
        let local = join(h.as_str(), ".local");
        let local = join(local.as_str(), "bin");
        let local = join(local.as_str(), "wt");
        let nix = join(h.as_str(), ".nix-profile");
        let nix = join(nix.as_str(), "bin");
        let nix = join(nix.as_str(), "wt");
        r.push(local);
        r.push(nix);
    }
    r.push(String::from_str("/run/current-system/sw/bin/wt"));
    assert(string_views(r@) =~= stable_candidates_spec(opt_view(home)));
    r
}

#[derive(Debug, Clone)]
pub enum HookError {
    /// The path of this program is not known.
    NoProgramPath,
    /// The program is in the nix store, whose paths change with each build.
    NixStore { exe: String },
}

pub open spec fn hook_error_text(e: HookError) -> Seq<char> {
    match e {
        HookError::NoProgramPath => "cannot find the path of this program"@,
        HookError::NixStore { exe } => "the program is at "@ + exe@
            + "\n  a git hook must not point to a /nix/store path: the path changes with each\n  build, and git ignores a hook that it cannot run. make a stable path first:\n    ln -s "@
            + exe@ + " ~/.local/bin/wt\n  or install the program with `nix profile install`"@,
    }
}

impl HookError {
    pub fn message(&self) -> (m: String)
        ensures
            m@ == hook_error_text(*self),
    {
        match self {
            HookError::NoProgramPath => String::from_str("cannot find the path of this program"),
            HookError::NixStore { exe } => {
                let mut m = String::from_str("the program is at ");
                m.append(exe.as_str());
                m.append(
                    "\n  a git hook must not point to a /nix/store path: the path changes with each\n  build, and git ignores a hook that it cannot run. make a stable path first:\n    ln -s ",
                );
                m.append(exe.as_str());
                m.append(" ~/.local/bin/wt\n  or install the program with `nix profile install`");
                m
            },
        }
    }
}

/// The index of the first candidate that is present.
pub open spec fn first_present(present: Seq<bool>) -> Option<int>
    decreases present.len(),
{
    if present.len() == 0 {
        None
    } else if present[0] {
        Some(0)
    } else {
        match first_present(present.drop_first()) {
            Some(i) => Some(i + 1),
            None => None,
        }
    }
}

proof fn lemma_first_present_at(present: Seq<bool>, i: int)
    requires
        0 <= i <= present.len(),
        forall|j: int| 0 <= j < i ==> !present[j],
        i < present.len() ==> present[i],
    ensures
        i < present.len() ==> first_present(present) == Some(i),
        i == present.len() ==> first_present(present) is None,
    decreases present.len(),
{
    if present.len() > 0 && !present[0] {
        lemma_first_present_at(present.drop_first(), i - 1);
    }
}

/// The path to write into the hook link: the first stable candidate that
/// is present; else this program, unless it is in the nix store.
pub open spec fn target_choice(
    candidates: Seq<Seq<char>>,
    present: Seq<bool>,
    exe: Option<Seq<char>>,
) -> Result<Seq<char>, Option<Seq<char>>> {
    match first_present(present) {
        Some(i) => Ok(candidates[i]),
        None => match exe {
            None => Err(None),
            Some(e) => if path_starts_with(e, "/nix/store"@) {
                Err(Some(e))
            } else {
                Ok(e)
            },
        },
    }
}

/// Select the path to write into the hook link. `present[i]` says that
/// `candidates[i]` exists; `exe` is the path of this program, if known.
///
/// A hook stays in the repository for longer than the program that made it.
/// On NixOS the path of the program changes with each build, and nix
/// removes the old path; git does not show an error for a hook that it
/// cannot run. Therefore, prefer a path that does not change.
pub fn install_target(candidates: &Vec<String>, present: &Vec<bool>, exe: Option<String>) -> (r:
    Result<String, HookError>)
    requires
        candidates.len() == present.len(),
    ensures
        match target_choice(string_views(candidates@), present@, opt_view(exe)) {
            Ok(t) => r matches Ok(s) && s@ == t,
            Err(None) => r matches Err(HookError::NoProgramPath),
            Err(Some(e)) => r matches Err(HookError::NixStore { exe: x }) && x@ == e,
        },
{
    let mut i: usize = 0;
    while i < present.len()
        invariant
            candidates.len() == present.len(),
            i <= present.len(),
            forall|j: int| 0 <= j < i ==> !present@[j],
        decreases present.len() - i,
    {
        if present[i] {
            proof {
                lemma_first_present_at(present@, i as int);
                assert(string_views(candidates@)[i as int] == candidates@[i as int]@);
            }
            return Ok(candidates[i].clone());
        }
        i += 1;
    }
    proof {
        lemma_first_present_at(present@, i as int);
    }
    match exe {
        None => Err(HookError::NoProgramPath),
        Some(e) => if path_starts_with_exec(e.as_str(), "/nix/store") {
            Err(HookError::NixStore { exe: e })
        } else {
            Ok(e)
        },
    }
}

/// What `install` does with the hook.
#[derive(Debug, Clone, Copy, PartialEq, Eq, Structural)]
pub enum Install {
    /// The hook points to the target already.
    Unchanged,
    /// Make the link.
    Create,
    /// Remove what is at the path of the hook, then make the link.
    Replace,
}

pub open spec fn install_spec(current: Option<Seq<char>>, present: bool, target: Seq<char>) -> Install {
    if current == Some(target) {
        Install::Unchanged
    } else if present {
        Install::Replace
    } else {
        Install::Create
    }
}

/// Make the `post-checkout` hook, or point it to a new path. `current` is
/// the target of the link at the path of the hook, if it is a link;
/// `present` says that something is at that path.
pub fn install_plan(current: &Option<String>, present: bool, target: &String) -> (r: Install)
    ensures
        r == install_spec(opt_view(*current), present, target@),
{
    match current {
        Some(c) => if *c == *target {
            return Install::Unchanged;
        },
        None => {},
    }
    if present {
        Install::Replace
    } else {
        Install::Create
    }
}

/// A hook that points to the target is not touched again: the second
/// `wt init` changes nothing.
pub proof fn law_install_is_idempotent(target: Seq<char>)
    ensures
        install_spec(Some(target), true, target) == Install::Unchanged,
{
}

pub open spec fn check_text(
    hook: Seq<char>,
    present: bool,
    target_present: bool,
    target: Option<Seq<char>>,
) -> Option<Seq<char>> {
    if !present {
        Some(
            "the post-checkout hook is not at "@ + hook
                + ". wt cannot make the links automatically. run `wt init`"@,
        )
    } else if !target_present {
        Some(
            "the post-checkout hook points to "@ + (match target {
                Some(t) => t,
                None => "?"@,
            }) + ", and that path is not present\n  git ignores the hook and shows no error. run `wt init` to correct it"@,
        )
    } else {
        None
    }
}

/// Examine the hook. This function changes a failure that the user cannot
/// see into a message that the user can see. `present` says that something
/// is at the path of the hook; `target_present`, that the path it leads to
/// exists; `target`, where the link points.
pub fn check(hook: &str, present: bool, target_present: bool, target: Option<String>) -> (r: Option<
    String,
>)
    ensures
        opt_view(r) == check_text(hook@, present, target_present, opt_view(target)),
{
    if !present {
        let mut m = String::from_str("the post-checkout hook is not at ");
        m.append(hook);
        m.append(". wt cannot make the links automatically. run `wt init`");
        return Some(m);
    }
    if !target_present {
        let mut m = String::from_str("the post-checkout hook points to ");
        match target {
            Some(t) => m.append(t.as_str()),
            None => m.append("?"),
        }
        m.append(
            ", and that path is not present\n  git ignores the hook and shows no error. run `wt init` to correct it",
        );
        return Some(m);
    }
    None
}

/// The hook runs for a new worktree: git gives a previous HEAD of zeros.
pub open spec fn is_creation_spec(args: Seq<Seq<char>>) -> bool {
    args.len() > 0 && args[0].len() > 0 && forall|i: int| 0 <= i < args[0].len() ==> args[0][i] == '0'
}

/// Git runs the hook as `post-checkout <prev-head> <new-head> <flag>`. Git
/// also runs it for each `git switch`, so the hook acts only when the
/// previous HEAD is all zeros: a new worktree.
pub fn is_creation(args: &Vec<String>) -> (r: bool)
    ensures
        r == is_creation_spec(string_views(args@)),
{
    if args.len() == 0 {
        return false;
    }
    let first = crate::text::chars_of(args[0].as_str());
    assert(string_views(args@)[0] == args@[0]@);
    if first.len() == 0 {
        return false;
    }
    let mut i: usize = 0;
    while i < first.len()
        invariant
            i <= first.len(),
            args.len() > 0,
            first@ == string_views(args@)[0],
            forall|j: int| 0 <= j < i ==> first@[j] == '0',
        decreases first.len() - i,
    {
        if first[i] != '0' {
            return false;
        }
        i += 1;
    }
    true
}

} // verus!
