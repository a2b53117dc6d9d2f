use wt::cmd::delete::{count_line, names, refusal, resolve, NoSuchWorktree};
use wt::repo::Worktree;

fn worktrees() -> Vec<Worktree> {
    ["/repo/main", "/repo/eng-1", "/repo/eng-2"]
        .iter()
        .map(|p| Worktree {
            path: p.to_string(),
            branch: None,
        })
        .collect()
}

fn chosen_names(chosen: &[Worktree]) -> Vec<String> {
    chosen.iter().map(|w| w.name()).collect()
}

#[test]
fn the_tool_keeps_the_order_the_user_gave() {
    let all = worktrees();
    let targets = vec!["eng-2".to_string(), "main".to_string()];
    let chosen = resolve(&all, &targets).unwrap();
    assert_eq!(chosen_names(&chosen), ["eng-2", "main"]);
}

#[test]
fn a_path_names_a_worktree_too() {
    let all = worktrees();
    let targets = vec!["/repo/eng-1".to_string()];
    let chosen = resolve(&all, &targets).unwrap();
    assert_eq!(chosen_names(&chosen), ["eng-1"]);
}

#[test]
fn one_worktree_that_the_user_names_twice_is_one_worktree() {
    let all = worktrees();
    let targets = vec![
        "eng-1".to_string(),
        "/repo/eng-1".to_string(),
        "eng-2".to_string(),
    ];
    let chosen = resolve(&all, &targets).unwrap();
    assert_eq!(chosen_names(&chosen), ["eng-1", "eng-2"]);
}

#[test]
fn a_name_that_is_not_a_worktree_stops_the_command() {
    let all = worktrees();
    let targets = vec!["eng-1".to_string(), "eng-9".to_string()];
    assert!(resolve(&all, &targets).is_err());
}

#[test]
fn the_error_names_the_first_unknown_name_and_each_worktree() {
    let all = worktrees();
    let targets = vec!["eng-7".to_string(), "eng-9".to_string()];
    let err = resolve(&all, &targets).unwrap_err();
    assert_eq!(err.target, "eng-7");
    assert_eq!(err.names, ["main", "eng-1", "eng-2"]);
    assert_eq!(
        err.message(),
        "there is no worktree with the name eng-7\n  the names are: main, eng-1, eng-2"
    );
}

#[test]
fn an_empty_list_of_names_selects_nothing() {
    let all = worktrees();
    let chosen = resolve(&all, &Vec::new()).unwrap();
    assert!(chosen.is_empty());
}

#[test]
fn the_names_of_the_worktrees_are_their_last_segments() {
    assert_eq!(names(&worktrees()), ["main", "eng-1", "eng-2"]);
    let e = NoSuchWorktree {
        target: "x".to_string(),
        names: vec![],
    };
    assert_eq!(e.message(), "there is no worktree with the name x\n  the names are: ");
}

#[test]
fn delete_counts_a_list_and_names_each_refusal() {
    assert_eq!(count_line(1, 0), None);
    assert_eq!(count_line(1, 1), None);
    assert_eq!(count_line(3, 1).as_deref(), Some("2 worktree(s) removed"));
    assert_eq!(refusal(&vec![]), None);
    assert_eq!(
        refusal(&vec!["a".to_string(), "b".to_string()]).as_deref(),
        Some("wt cannot remove a, b. use --force")
    );
}
