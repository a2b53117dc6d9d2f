use wt::cmd::add::{
    after_fetch, dir_name, fetch_first, local_args, local_ref, new_branch_args, remote_ref,
    remote_tracking_ref, resolve, track_args, worktree_with_branch, Fetch, Source, Step,
};
use wt::repo::Worktree;

#[test]
fn the_directory_is_the_branch_with_dashes() {
    assert_eq!(dir_name("feature/login/v2", None), "feature-login-v2");
    assert_eq!(dir_name("feature/login", Some("login")), "login");
    assert_eq!(dir_name("eng-1234", None), "eng-1234");
}

#[test]
fn the_refs_of_a_branch() {
    assert_eq!(remote_ref("eng-1"), "origin/eng-1");
    assert_eq!(local_ref("eng-1"), "refs/heads/eng-1");
    assert_eq!(remote_tracking_ref("origin/eng-1"), "refs/remotes/origin/eng-1");
}

#[test]
fn the_arguments_of_git_worktree_add() {
    assert_eq!(local_args("/r/x", "x"), ["worktree", "add", "/r/x", "x"]);
    assert_eq!(
        track_args("/r/x", "x", "origin/x"),
        ["worktree", "add", "--track", "-b", "x", "/r/x", "origin/x"]
    );
    assert_eq!(
        new_branch_args("/r/x", "x", "origin/main"),
        ["worktree", "add", "--no-track", "-b", "x", "/r/x", "origin/main"]
    );
}

#[test]
fn the_search_goes_local_then_remote_then_fetch_then_new() {
    assert_eq!(resolve(Fetch::Lazy, true, true), Step::Found(Source::Local));
    assert_eq!(resolve(Fetch::Lazy, false, true), Step::Found(Source::Remote));
    assert_eq!(resolve(Fetch::Lazy, false, false), Step::FetchAndRetry);
    assert_eq!(resolve(Fetch::Always, false, false), Step::FetchAndRetry);
    assert_eq!(resolve(Fetch::Never, false, false), Step::Found(Source::New));
    assert_eq!(after_fetch(true), Source::Fetched);
    assert_eq!(after_fetch(false), Source::New);
    assert!(fetch_first(Fetch::Always));
    assert!(!fetch_first(Fetch::Lazy));
    assert!(!fetch_first(Fetch::Never));
}

#[test]
fn a_branch_that_a_worktree_has_leads_to_that_worktree() {
    let ws = vec![
        Worktree {
            path: "/r/a".into(),
            branch: None,
        },
        Worktree {
            path: "/r/b".into(),
            branch: Some("eng-1".into()),
        },
    ];
    assert_eq!(worktree_with_branch(&ws, &"eng-1".to_string()), Some(1));
    assert_eq!(worktree_with_branch(&ws, &"eng-2".to_string()), None);
}
