//! `wt add`: where the new worktree goes, and which branch it is on.

use vstd::prelude::*;
use crate::cmd::cd::{find_by_branch, first_where, on_branch};
use crate::repo::{Worktree, worktree_views};
use crate::text::{chars_of, string_of, string_views};

verus! {

#[derive(Debug, Clone, Copy, PartialEq, Eq, Structural)]
pub enum Fetch {
    /// Fetch only if the branch is not known. This is the default.
    Lazy,
    /// Do not use the network.
    Never,
    /// Fetch before the tool finds the branch.
    Always,
}

/// `s` with each `from` replaced by `to`.
pub open spec fn replace_char(s: Seq<char>, from: char, to: char) -> Seq<char> {
    s.map_values(|c: char| if c == from { to } else { c })
}

/// The directory name of the new worktree: the name the user gave, or the
/// branch with each `/` replaced by `-`.
pub open spec fn dir_name_spec(branch: Seq<char>, dir: Option<Seq<char>>) -> Seq<char> {
    match dir {
        Some(d) => d,
        None => replace_char(branch, '/', '-'),
    }
}

pub fn dir_name(branch: &str, dir: Option<&str>) -> (r: String)
    ensures
        r@ == dir_name_spec(
            branch@,
            match dir {
                Some(d) => Some(d@),
                None => None,
            },
        ),
{
    match dir {
        Some(d) => String::from_str(d),
        None => {
            let v = chars_of(branch);
            let mut out: Vec<char> = Vec::new();
            let mut i: usize = 0;
            while i < v.len()
                invariant
                    i <= v.len(),
                    out@ == replace_char(v@.take(i as int), '/', '-'),
                decreases v.len() - i,
            {
                let c = v[i];
                out.push(if c == '/' { '-' } else { c });
                i += 1;
                assert(out@ =~= replace_char(v@.take(i as int), '/', '-'));
            }
            assert(v@.take(i as int) =~= v@);
            string_of(&out)
        },
    }
}

/// `origin/<branch>`.
pub fn remote_ref(branch: &str) -> (r: String)
    ensures
        r@ == "origin/"@ + branch@,
{
    let mut r = String::from_str("origin/");
    r.append(branch);
    r
}

/// `refs/heads/<branch>`: the ref of a local branch.
pub fn local_ref(branch: &str) -> (r: String)
    ensures
        r@ == "refs/heads/"@ + branch@,
{
    let mut r = String::from_str("refs/heads/");
    r.append(branch);
    r
}

/// `refs/remotes/<remote_ref>`: the ref of a remote branch.
pub fn remote_tracking_ref(remote_ref: &str) -> (r: String)
    ensures
        r@ == "refs/remotes/"@ + remote_ref@,
{
    let mut r = String::from_str("refs/remotes/");
    r.append(remote_ref);
    r
}

fn text(s: &str) -> (r: String)
    ensures
        r@ == s@,
{
    String::from_str(s)
}

/// `git worktree add <dest> <branch>`: a worktree on a local branch.
pub fn local_args(dest: &str, branch: &str) -> (r: Vec<String>)
    ensures
        string_views(r@) == seq!["worktree"@, "add"@, dest@, branch@],
{
    let r = vec![text("worktree"), text("add"), text(dest), text(branch)];
    assert(string_views(r@) =~= seq!["worktree"@, "add"@, dest@, branch@]);
    r
}

/// `git worktree add --track -b <branch> <dest> <remote_ref>`: a new local
/// branch that tracks the remote branch.
pub fn track_args(dest: &str, branch: &str, remote_ref: &str) -> (r: Vec<String>)
    ensures
        string_views(r@) == seq![
            "worktree"@,
            "add"@,
            "--track"@,
            "-b"@,
            branch@,
            dest@,
            remote_ref@,
        ],
{
    let r = vec![
        text("worktree"),
        text("add"),
        text("--track"),
        text("-b"),
        text(branch),
        text(dest),
        text(remote_ref),
    ];
    assert(string_views(r@) =~= seq![
        "worktree"@,
        "add"@,
        "--track"@,
        "-b"@,
        branch@,
        dest@,
        remote_ref@,
    ]);
    r
}

/// `git worktree add --no-track -b <branch> <dest> <base>`: a new branch
/// from the base branch. A new branch from origin/master must not keep
/// master as its upstream branch, or `git push` sends the commits to master.
pub fn new_branch_args(dest: &str, branch: &str, base: &str) -> (r: Vec<String>)
    ensures
        string_views(r@) == seq![
            "worktree"@,
            "add"@,
            "--no-track"@,
            "-b"@,
            branch@,
            dest@,
            base@,
        ],
{
    let r = vec![
        text("worktree"),
        text("add"),
        text("--no-track"),
        text("-b"),
        text(branch),
        text(dest),
        text(base),
    ];
    assert(string_views(r@) =~= seq![
        "worktree"@,
        "add"@,
        "--no-track"@,
        "-b"@,
        branch@,
        dest@,
        base@,
    ]);
    r
}

/// Where the branch comes from.
#[derive(Debug, Clone, Copy, PartialEq, Eq, Structural)]
pub enum Source {
    /// A local branch.
    Local,
    /// A remote branch that the repository knows.
    Remote,
    /// A remote branch that a fetch just brought.
    Fetched,
    /// A new branch from the base branch.
    New,
}

/// The next step of the search for the branch.
#[derive(Debug, Clone, Copy, PartialEq, Eq, Structural)]
pub enum Step {
    /// The branch is found.
    Found(Source),
    /// Fetch `origin <branch>`, then look for the remote branch again.
    FetchAndRetry,
}

/// The tool fetches before it looks, only with `--fetch`.
pub open spec fn fetch_first_spec(fetch: Fetch) -> bool {
    fetch == Fetch::Always
}

pub fn fetch_first(fetch: Fetch) -> (r: bool)
    ensures
        r == fetch_first_spec(fetch),
{
    fetch == Fetch::Always
}

/// A local branch, then a remote branch; when neither is known, a fetch
/// (unless `--no-fetch`), else a new branch.
pub open spec fn resolve_spec(fetch: Fetch, has_local: bool, has_remote: bool) -> Step {
    if has_local {
        Step::Found(Source::Local)
    } else if has_remote {
        Step::Found(Source::Remote)
    } else if fetch != Fetch::Never {
        Step::FetchAndRetry
    } else {
        Step::Found(Source::New)
    }
}

/// The first step of the search: `has_local` and `has_remote` say which
/// refs the repository has now.
pub fn resolve(fetch: Fetch, has_local: bool, has_remote: bool) -> (r: Step)
    ensures
        r == resolve_spec(fetch, has_local, has_remote),
{
    if has_local {
        Step::Found(Source::Local)
    } else if has_remote {
        Step::Found(Source::Remote)
    } else if fetch != Fetch::Never {
        Step::FetchAndRetry
    } else {
        Step::Found(Source::New)
    }
}

/// After the fetch: the remote branch, if the fetch brought it, else a new
/// branch.
pub fn after_fetch(found_remotely: bool) -> (r: Source)
    ensures
        r == (if found_remotely {
            Source::Fetched
        } else {
            Source::New
        }),
{
    if found_remotely {
        Source::Fetched
    } else {
        Source::New
    }
}

/// Steps 1 and 2 do not use the network: the command fetches only when the
/// repository knows neither a local nor a remote branch of that name, and
/// never with `--no-fetch`.
pub proof fn law_fetch_only_when_unknown(fetch: Fetch, has_local: bool, has_remote: bool)
    ensures
        resolve_spec(fetch, has_local, has_remote) == Step::FetchAndRetry ==> !has_local
            && !has_remote && fetch != Fetch::Never,
        fetch == Fetch::Never ==> !fetch_first_spec(fetch) && resolve_spec(
            fetch,
            has_local,
            has_remote,
        ) != Step::FetchAndRetry,
{
}

/// The command makes a new branch only when no local and no remote branch
/// of that name is known, so it does not make a local branch beside a
/// remote branch with the same name that the repository knows.
pub proof fn law_new_branch_only_when_unknown(fetch: Fetch, has_local: bool, has_remote: bool)
    ensures
        resolve_spec(fetch, has_local, has_remote) == Step::Found(Source::New) ==> !has_local
            && !has_remote,
{
}

/// A branch can be in one worktree only: the worktree that has the branch
/// already, if one has it.
pub fn worktree_with_branch(worktrees: &Vec<Worktree>, branch: &String) -> (r: Option<usize>)
    ensures
        match r {
            Some(i) => i < worktrees.len() && first_where(worktree_views(worktrees@), on_branch(branch@))
                == Some(i as int),
            None => first_where(worktree_views(worktrees@), on_branch(branch@)) is None,
        },
{
    find_by_branch(worktrees, branch)
}

} // verus!
