use wt::cmd::prune::{
    base_local, blocker_message, describe, facts, needs_probe, origin_ref, remove_reason, summary,
    upstream, verdict, Blocker, Facts, Reason, Verdict,
};
use wt::cmd::prune::{ending, prunes_stale, step, tally, Ending, Step};
use wt::repo::Worktree;

/// A branch that origin has. Each test below starts here, because a
/// branch with no proof that it reached origin is never a candidate.
fn pushed() -> Facts {
    Facts {
        on_origin: true,
        ..Facts::default()
    }
}

#[test]
fn the_tool_keeps_a_branch_that_is_not_finished() {
    assert_eq!(verdict(&pushed(), false), Verdict::Keep);
}

#[test]
fn the_tool_removes_a_branch_that_the_base_branch_contains() {
    let f = Facts {
        merged: true,
        ..pushed()
    };
    assert_eq!(verdict(&f, false), Verdict::Remove(Reason::Merged));
}

#[test]
fn the_tool_removes_a_branch_that_origin_no_longer_has() {
    let f = Facts {
        on_origin: false,
        gone: true,
        ..Facts::default()
    };
    assert_eq!(verdict(&f, false), Verdict::Remove(Reason::Gone));
}

#[test]
fn the_merge_is_the_reason_when_both_facts_are_true() {
    let f = Facts {
        merged: true,
        gone: true,
        ..pushed()
    };
    assert_eq!(verdict(&f, false), Verdict::Remove(Reason::Merged));
}

#[test]
fn the_tool_keeps_a_new_branch_that_origin_does_not_have() {
    let f = Facts {
        merged: true,
        ..Facts::default()
    };
    assert_eq!(verdict(&f, false), Verdict::Keep);
}

#[test]
fn force_does_not_remove_a_branch_that_origin_does_not_have() {
    let f = Facts {
        merged: true,
        dirty: true,
        ..Facts::default()
    };
    assert_eq!(verdict(&f, true), Verdict::Keep);
}

#[test]
fn a_branch_that_origin_lost_needs_no_remote_tracking_ref() {
    let f = Facts {
        on_origin: false,
        gone: true,
        ..Facts::default()
    };
    assert_eq!(verdict(&f, false), Verdict::Remove(Reason::Gone));
}

#[test]
fn the_tool_keeps_the_base_branch() {
    let f = Facts {
        is_base: true,
        merged: true,
        gone: true,
        ..pushed()
    };
    assert_eq!(verdict(&f, false), Verdict::Keep);
}

#[test]
fn the_tool_keeps_a_worktree_that_is_on_no_branch() {
    let f = Facts {
        detached: true,
        merged: true,
        ..pushed()
    };
    assert_eq!(verdict(&f, false), Verdict::Keep);
}

#[test]
fn the_tool_keeps_the_worktree_that_the_user_is_in() {
    let f = Facts {
        merged: true,
        current: true,
        ..pushed()
    };
    assert_eq!(
        verdict(&f, false),
        Verdict::Blocked(Reason::Merged, Blocker::Current)
    );
}

#[test]
fn force_does_not_remove_the_worktree_that_the_user_is_in() {
    let f = Facts {
        merged: true,
        current: true,
        dirty: true,
        ..pushed()
    };
    assert_eq!(
        verdict(&f, true),
        Verdict::Blocked(Reason::Merged, Blocker::Current)
    );
}

#[test]
fn the_tool_keeps_a_worktree_that_has_a_modified_file() {
    let f = Facts {
        gone: true,
        dirty: true,
        ..pushed()
    };
    assert_eq!(
        verdict(&f, false),
        Verdict::Blocked(Reason::Gone, Blocker::Dirty)
    );
}

#[test]
fn force_removes_a_worktree_that_has_a_modified_file() {
    let f = Facts {
        gone: true,
        dirty: true,
        ..pushed()
    };
    assert_eq!(verdict(&f, true), Verdict::Remove(Reason::Gone));
}

#[test]
fn a_modified_file_alone_is_not_a_reason_to_remove() {
    let f = Facts {
        dirty: true,
        ..pushed()
    };
    assert_eq!(verdict(&f, true), Verdict::Keep);
}

#[test]
fn the_base_branch_of_origin_main_is_main() {
    assert_eq!(base_local("origin/main"), "main");
    assert_eq!(base_local("upstream/main"), "upstream/main");
    assert_eq!(origin_ref("eng-1"), "refs/remotes/origin/eng-1");
}

#[test]
fn the_upstream_ref_comes_from_the_config() {
    assert_eq!(
        upstream(Some("origin".into()), Some("refs/heads/eng-1".into())),
        Some("refs/remotes/origin/eng-1".to_string())
    );
    assert_eq!(upstream(None, Some("refs/heads/eng-1".into())), None);
    assert_eq!(upstream(Some("origin".into()), None), None);
    assert_eq!(upstream(Some("".into()), Some("refs/heads/x".into())), None);
    assert_eq!(upstream(Some("origin".into()), Some("refs/heads/".into())), None);
    assert_eq!(upstream(Some("origin".into()), Some("refs/tags/x".into())), None);
}

#[test]
fn the_facts_of_the_base_branch_and_of_no_branch_need_no_git() {
    let probed = Facts {
        merged: true,
        on_origin: true,
        ..Facts::default()
    };
    let base = "main".to_string();
    assert!(!needs_probe(&None, &base));
    assert!(!needs_probe(&Some("main".into()), &base));
    assert!(needs_probe(&Some("eng-1".into()), &base));
    let f = facts(&None, &base, probed);
    assert!(f.detached && !f.merged && !f.on_origin);
    let f = facts(&Some("main".into()), &base, probed);
    assert!(f.is_base && !f.merged);
    let f = facts(&Some("eng-1".into()), &base, probed);
    assert!(!f.is_base && !f.detached && f.merged && f.on_origin);
}

#[test]
fn the_report_says_why() {
    assert_eq!(describe(Reason::Merged, "origin/main", &None), "origin/main contains it");
    assert_eq!(
        describe(Reason::Gone, "origin/main", &Some("eng-1".into())),
        "origin no longer has eng-1"
    );
    assert_eq!(
        describe(Reason::Gone, "origin/main", &None),
        "origin no longer has its branch"
    );
    assert_eq!(blocker_message(Blocker::Current), "you are in it");
    assert_eq!(
        blocker_message(Blocker::Dirty),
        "it has a modified or untracked file. use --force"
    );
}

#[test]
fn the_reason_of_a_refusal_is_the_last_line_of_git() {
    assert_eq!(
        remove_reason("git worktree remove /r/x failed: fatal: '/r/x' contains modified or untracked files, use --force to delete it\n  more  "),
        "more"
    );
    assert_eq!(remove_reason("  one line "), "one line");
    assert_eq!(remove_reason(""), "");
}

#[test]
fn the_summary_counts_the_worktrees() {
    assert_eq!(summary(0, 0, false), "each worktree has work that is not finished");
    assert_eq!(summary(2, 0, true), "2 worktree(s) to remove. wt changed nothing");
    assert_eq!(summary(3, 1, false), "3 worktree(s) removed. 1 need(s) your attention");
    assert_eq!(summary(12, 0, false), "12 worktree(s) removed");
}

#[test]
fn a_dry_run_changes_nothing() {
    assert!(!prunes_stale(true, &vec![false, true]));
    assert!(prunes_stale(false, &vec![true, false]));
    assert!(!prunes_stale(false, &vec![true, true]));
    assert_eq!(step(Verdict::Remove(Reason::Merged), true), Step::WouldDrop(Reason::Merged));
    assert_eq!(step(Verdict::Remove(Reason::Gone), false), Step::Remove(Reason::Gone));
    assert_eq!(
        step(Verdict::Blocked(Reason::Gone, Blocker::Dirty), true),
        Step::Report(Reason::Gone, Blocker::Dirty)
    );
    assert_eq!(step(Verdict::Keep, false), Step::Pass);
}

#[test]
fn the_last_line_counts_removals_and_refusals() {
    let endings = vec![
        ending(Step::Remove(Reason::Merged), true),
        ending(Step::Remove(Reason::Gone), false),
        ending(Step::Report(Reason::Merged, Blocker::Current), false),
        ending(Step::WouldDrop(Reason::Gone), false),
        ending(Step::Pass, false),
    ];
    assert_eq!(
        endings,
        vec![Ending::Removed, Ending::Refused, Ending::Kept, Ending::WouldDrop, Ending::Untouched]
    );
    assert_eq!(tally(&endings), (2, 2));
}

#[test]
fn prune_names_each_worktree_that_git_pruned() {
    let w = |p: &str| Worktree { path: p.to_string(), branch: None };
    let before = vec![w("/r/main"), w("/r/gone-1"), w("/r/x"), w("/r/gone-2")];
    let after = vec![w("/r/main"), w("/r/x")];
    assert_eq!(wt::cmd::prune::gone(&before, &after), ["gone-1", "gone-2"]);
    assert!(wt::cmd::prune::gone(&after, &after).is_empty());
}
