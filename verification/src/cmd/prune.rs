use vstd::prelude::*;
use crate::repo::{opt_view, worktree_name, worktree_views, Worktree, WorktreeView};
use crate::cmd::delete::has_path;
use crate::text::{
    chars_of, decimal, decimal_string, lines, lines_vec, starts_with, string_of, string_views,
    strip_prefix_vec, trim_white, trim_white_vec,
};

verus! {

/// Why a worktree is finished.
#[derive(Debug, Clone, Copy, PartialEq, Eq, Structural)]
pub enum Reason {
    /// The base branch contains each commit of the branch.
    Merged,
    /// The branch has an upstream branch, and origin does not have it.
    Gone,
}

/// Why `wt` does not remove a worktree that is finished.
#[derive(Debug, Clone, Copy, PartialEq, Eq, Structural)]
pub enum Blocker {
    /// The user is in it. A removal would leave the shell in a path that
    /// is not present.
    Current,
    /// It has a modified file or an untracked file.
    Dirty,
}

#[derive(Debug, Clone, Copy, PartialEq, Eq, Structural)]
pub enum Verdict {
    /// The work is not finished. The command says nothing about it.
    Keep,
    Remove(Reason),
    Blocked(Reason, Blocker),
}

/// The facts that git gives about one worktree.
#[derive(Debug, Clone, Copy, Default)]
pub struct Facts {
    /// It is on the base branch itself, for example `main`.
    pub is_base: bool,
    /// It is on no branch.
    pub detached: bool,
    /// Origin has the branch now: `refs/remotes/origin/<branch>` is present.
    pub on_origin: bool,
    /// The base branch contains each commit of the branch.
    pub merged: bool,
    /// The config names an upstream branch, and origin does not have it.
    pub gone: bool,
    pub dirty: bool,
    pub current: bool,
}

/// The reason a worktree is finished, if it is: a merge that origin can
/// see wins over a branch that origin lost.
pub open spec fn finished_reason(f: Facts) -> Option<Reason> {
    if f.is_base || f.detached {
        None
    } else if f.merged && f.on_origin {
        Some(Reason::Merged)
    } else if f.gone {
        Some(Reason::Gone)
    } else {
        None
    }
}

/// What the command does with one worktree, given its facts.
pub open spec fn spec_verdict(f: Facts, force: bool) -> Verdict {
    match finished_reason(f) {
        None => Verdict::Keep,
        Some(reason) => if f.current {
            Verdict::Blocked(reason, Blocker::Current)
        } else if f.dirty && !force {
            Verdict::Blocked(reason, Blocker::Dirty)
        } else {
            Verdict::Remove(reason)
        },
    }
}

/// Decide what to do with one worktree.
///
/// The base branch is never a candidate, and neither is a worktree with no
/// branch. Each reason needs proof that the branch reached origin: origin
/// has it now and the base branch contains it, or the config names an
/// upstream branch that origin no longer has.
pub fn verdict(f: &Facts, force: bool) -> (v: Verdict)
    ensures
        v == spec_verdict(*f, force),
{
    if f.is_base || f.detached {
        return Verdict::Keep;
    }
    let reason = if f.merged && f.on_origin {
        Reason::Merged
    } else if f.gone {
        Reason::Gone
    } else {
        return Verdict::Keep;
    };
    if f.current {
        return Verdict::Blocked(reason, Blocker::Current);
    }
    if f.dirty && !force {
        return Verdict::Blocked(reason, Blocker::Dirty);
    }
    Verdict::Remove(reason)
}

/// The command removes no branch that is only on this machine: each
/// worktree that it removes or reports as finished has proof that its branch
/// reached origin (origin has it and the base branch contains it, or the
/// config names an upstream branch that origin no longer has).
pub proof fn law_no_removal_without_origin(f: Facts, force: bool)
    ensures
        spec_verdict(f, force) != Verdict::Keep ==> (f.on_origin && f.merged) || f.gone,
{
}

/// The worktree of the base branch, and a worktree on no branch, are always
/// kept.
pub proof fn law_base_and_detached_are_kept(f: Facts, force: bool)
    requires
        f.is_base || f.detached,
    ensures
        spec_verdict(f, force) == Verdict::Keep,
{
}

/// The command never removes the worktree the user is in, with or without
/// `--force`.
pub proof fn law_current_is_never_removed(f: Facts, force: bool)
    requires
        f.current,
    ensures
        !(spec_verdict(f, force) is Remove),
{
}

/// A worktree with a modified or untracked file is removed only with
/// `--force`.
pub proof fn law_dirty_needs_force(f: Facts)
    requires
        f.dirty,
    ensures
        !(spec_verdict(f, false) is Remove),
{
}

/// `--force` lifts only the blocker of a modified file: it turns that block
/// into a removal for the same reason, and it changes no other verdict.
pub proof fn law_force_lifts_only_dirty(f: Facts)
    ensures
        spec_verdict(f, false) matches Verdict::Blocked(r, Blocker::Dirty)
            ==> spec_verdict(f, true) == Verdict::Remove(r),
        !(spec_verdict(f, false) matches Verdict::Blocked(_, Blocker::Dirty))
            ==> spec_verdict(f, true) == spec_verdict(f, false),
{
}

/// When the base branch contains a branch that origin has, and origin also
/// lost its upstream branch, the merge is the reason the user reads.
pub proof fn law_merge_wins(f: Facts, force: bool)
    requires
        !f.is_base,
        !f.detached,
        f.merged,
        f.on_origin,
    ensures
        spec_verdict(f, force) matches Verdict::Remove(r) ==> r == Reason::Merged,
        spec_verdict(f, force) matches Verdict::Blocked(r, _) ==> r == Reason::Merged,
        spec_verdict(f, force) != Verdict::Keep,
{
}

// ------------------------------------------------ the facts, from what git gives

pub open spec fn origin_slash() -> Seq<char> {
    seq!['o', 'r', 'i', 'g', 'i', 'n', '/']
}

/// The local branch of a remote base branch: `origin/main` is `main`.
pub open spec fn strip_origin(base: Seq<char>) -> Seq<char> {
    if starts_with(base, origin_slash()) {
        base.skip(7)
    } else {
        base
    }
}

/// `default_base` gives a remote branch, for example `origin/main`. The
/// worktree of the base branch is on the local branch `main`.
pub fn base_local(base: &str) -> (r: String)
    ensures
        r@ == strip_origin(base@),
{
    let v = chars_of(base);
    let p = vec!['o', 'r', 'i', 'g', 'i', 'n', '/'];
    assert(p@ =~= origin_slash());
    match strip_prefix_vec(&v, p.as_slice()) {
        Some(rest) => string_of(&rest),
        None => string_of(&v),
    }
}

/// `refs/remotes/origin/<branch>`: the ref that shows that origin has the
/// branch now.
pub fn origin_ref(branch: &str) -> (r: String)
    ensures
        r@ == "refs/remotes/origin/"@ + branch@,
{
    let mut r = String::from_str("refs/remotes/origin/");
    r.append(branch);
    r
}

pub open spec fn refs_heads() -> Seq<char> {
    seq!['r', 'e', 'f', 's', '/', 'h', 'e', 'a', 'd', 's', '/']
}

/// The remote-tracking ref of the upstream branch, from the config values
/// `branch.<name>.remote` and `branch.<name>.merge` (absent when git could
/// not read them).
pub open spec fn upstream_ref(remote: Option<Seq<char>>, merge: Option<Seq<char>>) -> Option<
    Seq<char>,
> {
    match (remote, merge) {
        (Some(r), Some(m)) => if starts_with(m, refs_heads()) && r.len() > 0 && m.len() > 11 {
            Some("refs/remotes/"@ + r + "/"@ + m.skip(11))
        } else {
            None
        },
        _ => None,
    }
}

/// The remote-tracking ref of the upstream branch, for example
/// `refs/remotes/origin/eng-1234`.
///
/// The config holds the upstream branch, and it keeps it after `git fetch
/// --prune` removes the remote-tracking ref, which is exactly the condition
/// that the command looks for.
pub fn upstream(remote: Option<String>, merge: Option<String>) -> (r: Option<String>)
    ensures
        opt_view(r) == upstream_ref(opt_view(remote), opt_view(merge)),
{
    let remote = match remote {
        Some(x) => x,
        None => return None,
    };
    let merge = match merge {
        Some(x) => x,
        None => return None,
    };
    let m = chars_of(merge.as_str());
    let p = vec!['r', 'e', 'f', 's', '/', 'h', 'e', 'a', 'd', 's', '/'];
    assert(p@ =~= refs_heads());
    let name = match strip_prefix_vec(&m, p.as_slice()) {
        Some(n) => n,
        None => return None,
    };
    if remote.as_str().unicode_len() == 0 || name.len() == 0 {
        return None;
    }
    let mut r = String::from_str("refs/remotes/");
    r.append(remote.as_str());
    r.append("/");
    let n = string_of(&name);
    r.append(n.as_str());
    Some(r)
}

/// The facts of a worktree: one on no branch, or on the base branch, needs
/// no question to git; for any other, the facts are those that git gave.
pub open spec fn facts_of(branch: Option<Seq<char>>, base_local: Seq<char>, probed: Facts) -> Facts {
    match branch {
        None => Facts {
            is_base: false,
            detached: true,
            on_origin: false,
            merged: false,
            gone: false,
            dirty: false,
            current: false,
        },
        Some(b) => if b == base_local {
            Facts {
                is_base: true,
                detached: false,
                on_origin: false,
                merged: false,
                gone: false,
                dirty: false,
                current: false,
            }
        } else {
            Facts { is_base: false, detached: false, ..probed }
        },
    }
}

/// Git must be asked about the worktree: it is on a branch, and that branch
/// is not the base branch.
pub fn needs_probe(branch: &Option<String>, base_local: &String) -> (r: bool)
    ensures
        r == (opt_view(*branch) matches Some(b) && b != base_local@),
{
    match branch {
        Some(b) => *b != *base_local,
        None => false,
    }
}

/// The facts about one worktree.
pub fn facts(branch: &Option<String>, base_local: &String, probed: Facts) -> (f: Facts)
    ensures
        f == facts_of(opt_view(*branch), base_local@, probed),
{
    match branch {
        None => Facts {
            is_base: false,
            detached: true,
            on_origin: false,
            merged: false,
            gone: false,
            dirty: false,
            current: false,
        },
        Some(b) => if *b == *base_local {
            Facts {
                is_base: true,
                detached: false,
                on_origin: false,
                merged: false,
                gone: false,
                dirty: false,
                current: false,
            }
        } else {
            Facts { is_base: false, detached: false, ..probed }
        },
    }
}

// ------------------------------------------------ what the command says

pub open spec fn describe_text(reason: Reason, base: Seq<char>, branch: Option<Seq<char>>) -> Seq<
    char,
> {
    match reason {
        Reason::Merged => base + " contains it"@,
        Reason::Gone => match branch {
            Some(b) => "origin no longer has "@ + b,
            None => "origin no longer has its branch"@,
        },
    }
}

/// Why the worktree is finished, in words.
pub fn describe(reason: Reason, base: &str, branch: &Option<String>) -> (r: String)
    ensures
        r@ == describe_text(reason, base@, opt_view(*branch)),
{
    match reason {
        Reason::Merged => {
            let mut r = String::from_str(base);
            r.append(" contains it");
            r
        },
        Reason::Gone => match branch {
            Some(b) => {
                let mut r = String::from_str("origin no longer has ");
                r.append(b.as_str());
                r
            },
            None => String::from_str("origin no longer has its branch"),
        },
    }
}

pub open spec fn blocker_text(b: Blocker) -> Seq<char> {
    match b {
        Blocker::Current => "you are in it"@,
        Blocker::Dirty => "it has a modified or untracked file. use --force"@,
    }
}

/// Why the command keeps a finished worktree, in words.
pub fn blocker_message(b: Blocker) -> (r: String)
    ensures
        r@ == blocker_text(b),
{
    match b {
        Blocker::Current => String::from_str("you are in it"),
        Blocker::Dirty => String::from_str("it has a modified or untracked file. use --force"),
    }
}

/// The reason in an error of `git worktree remove`: its last line, trimmed.
pub open spec fn removal_reason(text: Seq<char>) -> Seq<char> {
    let ls = lines(text);
    trim_white(if ls.len() > 0 { ls.last() } else { text })
}

/// Git puts its whole command line in the message. Keep the last line,
/// which is the reason.
pub fn remove_reason(text: &str) -> (r: String)
    ensures
        r@ == removal_reason(text@),
{
    let v = chars_of(text);
    let ls = lines_vec(&v);
    let last = if ls.len() > 0 {
        assert(crate::text::views(ls@).last() == ls@[ls.len() - 1]@);
        trim_white_vec(&ls[ls.len() - 1])
    } else {
        trim_white_vec(&v)
    };
    string_of(&last)
}

pub open spec fn summary_text(removed: nat, blocked: nat, dry_run: bool) -> Seq<char> {
    if removed == 0 && blocked == 0 {
        "each worktree has work that is not finished"@
    } else if dry_run {
        decimal(removed) + " worktree(s) to remove. wt changed nothing"@
    } else if blocked > 0 {
        decimal(removed) + " worktree(s) removed. "@ + decimal(blocked) + " need(s) your attention"@
    } else {
        decimal(removed) + " worktree(s) removed"@
    }
}

/// The last line of the report.
pub fn summary(removed: usize, blocked: usize, dry_run: bool) -> (r: String)
    ensures
        r@ == summary_text(removed as nat, blocked as nat, dry_run),
{
    if removed == 0 && blocked == 0 {
        String::from_str("each worktree has work that is not finished")
    } else if dry_run {
        let mut r = decimal_string(removed);
        r.append(" worktree(s) to remove. wt changed nothing");
        r
    } else if blocked > 0 {
        let mut r = decimal_string(removed);
        r.append(" worktree(s) removed. ");
        let b = decimal_string(blocked);
        r.append(b.as_str());
        r.append(" need(s) your attention");
        r
    } else {
        let mut r = decimal_string(removed);
        r.append(" worktree(s) removed");
        r
    }
}

// ------------------------------------------------ the steps of the command

/// Whether the command first runs `git worktree prune`: only when some
/// listed worktree has no directory, and never in a dry run, which changes
/// nothing.
pub open spec fn prunes_stale_spec(dry_run: bool, present: Seq<bool>) -> bool {
    !dry_run && exists|i: int| 0 <= i < present.len() && !#[trigger] present[i]
}

/// `present` says, for each listed worktree, that its directory is there.
pub fn prunes_stale(dry_run: bool, present: &Vec<bool>) -> (r: bool)
    ensures
        r == prunes_stale_spec(dry_run, present@),
{
    if dry_run {
        return false;
    }
    let mut i: usize = 0;
    while i < present.len()
        invariant
            !dry_run,
            i <= present.len(),
            forall|j: int| 0 <= j < i ==> present@[j],
        decreases present.len() - i,
    {
        if !present[i] {
            assert(!present@[i as int]);
            return true;
        }
        i += 1;
    }
    false
}

/// What the command does with one worktree after its verdict.
#[derive(Debug, Clone, Copy, PartialEq, Eq, Structural)]
pub enum Step {
    /// Nothing: the work is not finished.
    Pass,
    /// Report that it keeps the worktree, and why.
    Report(Reason, Blocker),
    /// Report that a run without `--dry-run` would remove it.
    WouldDrop(Reason),
    /// Remove the worktree, then its branch.
    Remove(Reason),
}

pub open spec fn step_spec(v: Verdict, dry_run: bool) -> Step {
    match v {
        Verdict::Keep => Step::Pass,
        Verdict::Blocked(reason, blocker) => Step::Report(reason, blocker),
        Verdict::Remove(reason) => if dry_run {
            Step::WouldDrop(reason)
        } else {
            Step::Remove(reason)
        },
    }
}

pub fn step(v: Verdict, dry_run: bool) -> (r: Step)
    ensures
        r == step_spec(v, dry_run),
{
    match v {
        Verdict::Keep => Step::Pass,
        Verdict::Blocked(reason, blocker) => Step::Report(reason, blocker),
        Verdict::Remove(reason) => if dry_run {
            Step::WouldDrop(reason)
        } else {
            Step::Remove(reason)
        },
    }
}

/// How one worktree ended, for the count in the last line.
#[derive(Debug, Clone, Copy, PartialEq, Eq, Structural)]
pub enum Ending {
    /// Nothing was done or said.
    Untouched,
    /// Finished, and kept for a blocker.
    Kept,
    /// Finished; a dry run reported it.
    WouldDrop,
    /// Removed.
    Removed,
    /// Git refused to remove it.
    Refused,
}

/// The ending of a step: `removed` says that git removed the worktree, and
/// counts only for `Step::Remove`.
pub open spec fn ending_spec(s: Step, removed: bool) -> Ending {
    match s {
        Step::Pass => Ending::Untouched,
        Step::Report(..) => Ending::Kept,
        Step::WouldDrop(..) => Ending::WouldDrop,
        Step::Remove(..) => if removed {
            Ending::Removed
        } else {
            Ending::Refused
        },
    }
}

pub fn ending(s: Step, removed: bool) -> (r: Ending)
    ensures
        r == ending_spec(s, removed),
{
    match s {
        Step::Pass => Ending::Untouched,
        Step::Report(..) => Ending::Kept,
        Step::WouldDrop(..) => Ending::WouldDrop,
        Step::Remove(..) => if removed {
            Ending::Removed
        } else {
            Ending::Refused
        },
    }
}

/// The endings that count as removed: a removal, or one that a dry run reports.
pub open spec fn removed_count(es: Seq<Ending>) -> nat
    decreases es.len(),
{
    if es.len() == 0 {
        0
    } else {
        removed_count(es.drop_last()) + if es.last() is Removed || es.last() is WouldDrop {
            1nat
        } else {
            0nat
        }
    }
}

/// The endings that need the user: a blocker, or a refusal of git.
pub open spec fn blocked_count(es: Seq<Ending>) -> nat
    decreases es.len(),
{
    if es.len() == 0 {
        0
    } else {
        blocked_count(es.drop_last()) + if es.last() is Kept || es.last() is Refused {
            1nat
        } else {
            0nat
        }
    }
}

proof fn lemma_counts_bounded(es: Seq<Ending>)
    ensures
        removed_count(es) + blocked_count(es) <= es.len(),
    decreases es.len(),
{
    if es.len() > 0 {
        lemma_counts_bounded(es.drop_last());
    }
}

/// The two numbers of the last line: removed, and blocked.
pub fn tally(endings: &Vec<Ending>) -> (r: (usize, usize))
    ensures
        r.0 as nat == removed_count(endings@),
        r.1 as nat == blocked_count(endings@),
{
    let mut removed: usize = 0;
    let mut blocked: usize = 0;
    let mut i: usize = 0;
    while i < endings.len()
        invariant
            i <= endings.len(),
            removed as nat == removed_count(endings@.take(i as int)),
            blocked as nat == blocked_count(endings@.take(i as int)),
        decreases endings.len() - i,
    {
        let ghost before = endings@.take(i as int);
        assert(endings@.take(i + 1).drop_last() =~= before);
        proof {
            lemma_counts_bounded(before);
        }
        match endings[i] {
            Ending::Removed | Ending::WouldDrop => removed += 1,
            Ending::Kept | Ending::Refused => blocked += 1,
            Ending::Untouched => {},
        }
        i += 1;
    }
    assert(endings@.take(i as int) =~= endings@);
    (removed, blocked)
}

/// A dry run changes nothing: it runs no `git worktree prune`, it removes
/// no worktree, and so no branch, whatever the verdicts, and the last line
/// says that it changed nothing once it found a finished worktree.
pub proof fn law_dry_run_changes_nothing(present: Seq<bool>, verdicts: Seq<Verdict>)
    ensures
        !prunes_stale_spec(true, present),
        forall|i: int| 0 <= i < verdicts.len() ==> !(step_spec(#[trigger] verdicts[i], true) is Remove),
        forall|i: int, removed: bool|
            0 <= i < verdicts.len() ==> !(#[trigger] ending_spec(step_spec(verdicts[i], true), removed) is Removed),
{
}

/// A worktree that a dry run reports as one to remove is one that a real run
/// removes, unless git refuses.
pub proof fn law_dry_run_reports_what_a_run_removes(v: Verdict)
    ensures
        step_spec(v, true) is WouldDrop <==> step_spec(v, false) is Remove,
{
}

/// The names of the worktrees of `before` whose path is in no worktree of
/// `after`: the ones that `git worktree prune` removed.
pub open spec fn gone_names(before: Seq<WorktreeView>, after: Seq<WorktreeView>) -> Seq<Seq<char>>
    decreases before.len(),
{
    if before.len() == 0 {
        Seq::empty()
    } else {
        let rest = gone_names(before.drop_last(), after);
        if has_path(after, before.last().path) {
            rest
        } else {
            rest.push(worktree_name(before.last().path))
        }
    }
}

/// The names of the worktrees that the list lost between `before` and `after`.
pub fn gone(before: &Vec<Worktree>, after: &Vec<Worktree>) -> (r: Vec<String>)
    ensures
        string_views(r@) == gone_names(worktree_views(before@), worktree_views(after@)),
{
    let ghost bv = worktree_views(before@);
    let ghost av = worktree_views(after@);
    let mut r: Vec<String> = Vec::new();
    let mut i: usize = 0;
    while i < before.len()
        invariant
            i <= before.len(),
            bv == worktree_views(before@),
            av == worktree_views(after@),
            string_views(r@) == gone_names(bv.take(i as int), av),
        decreases before.len() - i,
    {
        let w = &before[i];
        assert(bv.take(i + 1).drop_last() =~= bv.take(i as int));
        assert(bv.take(i + 1).last() == w@);
        let mut j: usize = 0;
        let mut found = false;
        while j < after.len()
            invariant
                j <= after.len(),
                av == worktree_views(after@),
                found == (exists|k: int| 0 <= k < j && av[k].path == w.path@),
            decreases after.len() - j,
        {
            assert(av[j as int] == after@[j as int]@);
            if after[j].path == w.path {
                found = true;
            }
            j += 1;
        }
        assert(found == has_path(av, w.path@));
        if !found {
            let ghost before_r = string_views(r@);
            let n = w.name();
            r.push(n);
            assert(string_views(r@) =~= before_r.push(n@));
        }
        i += 1;
    }
    assert(bv.take(i as int) =~= bv);
    r
}

/// The upstream ref keeps the whole name of the branch, each `/` in it
/// included: the config pair `remote = r`, `merge = refs/heads/<b>` gives
/// `refs/remotes/<r>/<b>`, and a result is always of that form.
pub proof fn law_upstream_keeps_the_whole_branch(
    remote: Option<Seq<char>>,
    merge: Option<Seq<char>>,
    r: Seq<char>,
    b: Seq<char>,
)
    ensures
        r.len() > 0 && b.len() > 0 ==> upstream_ref(Some(r), Some("refs/heads/"@ + b)) == Some(
            "refs/remotes/"@ + r + "/"@ + b,
        ),
        upstream_ref(remote, merge) matches Some(u) ==> exists|x: Seq<char>, y: Seq<char>|
            x.len() > 0 && y.len() > 0 && remote == Some(x) && merge == Some("refs/heads/"@ + y)
                && u == "refs/remotes/"@ + x + "/"@ + y,
{
    reveal_strlit("refs/heads/");
    let m = "refs/heads/"@ + b;
    assert(m.take(11) =~= refs_heads());
    assert(m.skip(11) =~= b);
    if let (Some(x), Some(mm)) = (remote, merge) {
        if upstream_ref(remote, merge) is Some {
            let y = mm.skip(11);
            assert(mm =~= "refs/heads/"@ + y) by {
                assert(mm.take(11) == refs_heads());
                assert forall|j: int| 0 <= j < mm.len() implies mm[j] == ("refs/heads/"@ + y)[j] by {
                    if j < 11 {
                        assert(mm[j] == mm.take(11)[j]);
                    }
                }
            }
        }
    }
}

} // verus!
