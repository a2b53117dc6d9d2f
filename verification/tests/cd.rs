use wt::cmd::cd::{bare, lookup, run, CdError, Noun};
use wt::repo::Worktree;

fn worktrees() -> Vec<Worktree> {
    vec![
        Worktree {
            path: "/r/main".into(),
            branch: Some("main".into()),
        },
        Worktree {
            path: "/r/eng-1234".into(),
            branch: Some("eng-1234-login".into()),
        },
        Worktree {
            path: "/r/eng-5678".into(),
            branch: Some("feature/search".into()),
        },
        Worktree {
            path: "/r/docs".into(),
            branch: None,
        },
    ]
}

#[test]
fn the_exact_name_wins() {
    let f = run(&worktrees(), &"main".to_string()).unwrap();
    assert_eq!(f.path, "/r/main");
    assert_eq!(f.note, None);
}

#[test]
fn the_branch_names_a_worktree_too() {
    let f = run(&worktrees(), &"feature/search".to_string()).unwrap();
    assert_eq!(f.path, "/r/eng-5678");
    assert_eq!(f.note.as_deref(), Some("  eng-5678  (branch feature/search)"));
}

#[test]
fn the_start_of_one_name_is_enough() {
    let f = run(&worktrees(), &"do".to_string()).unwrap();
    assert_eq!(f.path, "/r/docs");
    assert_eq!(f.note.as_deref(), Some("  docs"));
}

#[test]
fn the_start_of_two_names_is_not_enough() {
    let e = run(&worktrees(), &"eng".to_string()).unwrap_err();
    assert!(matches!(e, CdError::Ambiguous { .. }));
    assert_eq!(
        e.message(),
        "eng matches more than one worktree: eng-1234, eng-5678"
    );
}

#[test]
fn an_unknown_name_lists_the_worktrees() {
    let e = lookup(&worktrees(), &"x".to_string(), Noun::CommandOrWorktree).unwrap_err();
    assert_eq!(
        e.message(),
        "there is no command or worktree with the name x\n  the worktree names are: main, eng-1234, eng-5678, docs"
    );
    let e = run(&worktrees(), &"x".to_string()).unwrap_err();
    assert!(e.message().starts_with("there is no worktree with the name x"));
}

#[test]
fn more_than_one_word_is_a_command_that_does_not_exist() {
    let words = vec!["frobnicate".to_string(), "now".to_string()];
    let e = bare(&worktrees(), &words).unwrap_err();
    assert_eq!(
        e.message(),
        "there is no command with the name frobnicate\n  wt <worktree> is the short form of wt cd <worktree>, and it takes one name"
    );
    let one = vec!["docs".to_string()];
    assert_eq!(bare(&worktrees(), &one).unwrap().path, "/r/docs");
}
