use wt::cmd::ls::{inspect, links, rows, State};
use wt::cmd::shell_init::{run as shell_init, FISH};
use wt::cmd::sync::summary;
use wt::manifest::Manifest;
use wt::repo::Worktree;
use wt::seed::{
    compare_kinds, count_changes, entry_step, plan, same_bytes, same_names, Action, Compare, EntryStep,
    Kind, Outcome, Present,
};
use wt::cmd::sync::tally;

#[test]
fn an_empty_path_gets_a_link() {
    assert_eq!(plan(true, Present::Absent, false), (Action::Link, Outcome::Linked));
}

#[test]
fn a_correct_link_stays() {
    assert_eq!(
        plan(true, Present::Link { to_store: true }, true),
        (Action::Keep, Outcome::AlreadyLinked)
    );
    assert_eq!(
        plan(true, Present::Link { to_store: false }, false),
        (Action::Relink, Outcome::Linked)
    );
}

#[test]
fn a_different_file_stays_without_force() {
    assert_eq!(
        plan(true, Present::Other { same_content: false }, false),
        (Action::Keep, Outcome::SkippedDivergent)
    );
    assert_eq!(
        plan(true, Present::Other { same_content: false }, true),
        (Action::Replace, Outcome::Forced)
    );
    assert_eq!(
        plan(true, Present::Other { same_content: true }, false),
        (Action::Replace, Outcome::Replaced)
    );
    assert_eq!(
        plan(false, Present::Other { same_content: false }, true),
        (Action::Keep, Outcome::MissingInStore)
    );
}

#[test]
fn a_change_is_a_link_that_the_tool_made() {
    let os = vec![
        Outcome::Linked,
        Outcome::AlreadyLinked,
        Outcome::Replaced,
        Outcome::SkippedDivergent,
        Outcome::Forced,
        Outcome::MissingInStore,
    ];
    assert_eq!(count_changes(&os), 3);
    assert!(Outcome::Forced.is_change());
    assert!(!Outcome::AlreadyLinked.is_change());
}

#[test]
fn the_comparison_reads_the_metadata_first() {
    let link = |t: &str| Kind::Link { target: t.into() };
    assert_eq!(compare_kinds(&link("/a"), &link("/a")), Compare::Done { same: true });
    assert_eq!(compare_kinds(&link("/a"), &link("/b")), Compare::Done { same: false });
    assert_eq!(compare_kinds(&link("/a"), &Kind::Dir), Compare::Done { same: false });
    assert_eq!(compare_kinds(&Kind::Dir, &Kind::File { len: 1 }), Compare::Done { same: false });
    assert_eq!(
        compare_kinds(&Kind::File { len: 2 }, &Kind::File { len: 1 }),
        Compare::Done { same: false }
    );
    assert_eq!(compare_kinds(&Kind::File { len: 1 }, &Kind::File { len: 1 }), Compare::Bytes);
    assert_eq!(compare_kinds(&Kind::Dir, &Kind::Dir), Compare::Entries);
    let v = |xs: &[&str]| xs.iter().map(|x| x.to_string()).collect::<Vec<_>>();
    assert!(same_names(&v(&["b.json", "a.json"]), &v(&["a.json", "b.json"])));
    assert!(!same_names(&v(&["a.json"]), &v(&["b.json"])));
    assert!(!same_names(&v(&["a.json"]), &v(&["a.json", "b.json"])));
}

#[test]
fn the_report_of_ls_counts_the_links() {
    assert_eq!(inspect(true, Present::Link { to_store: true }), State::Linked);
    assert_eq!(inspect(false, Present::Absent), State::MissingInStore);
    assert_eq!(inspect(true, Present::Other { same_content: true }), State::SameFile);
    let m = Manifest {
        link: vec![".env".into(), ".auth".into(), ".envrc".into()],
    };
    let all_good = vec![Ok(State::Linked), Ok(State::Linked), Ok(State::Linked)];
    assert_eq!(links(&m.link, &all_good), "3/3 links");
    let mixed = vec![Ok(State::Linked), Ok(State::Absent), Err("denied".to_string())];
    assert_eq!(links(&m.link, &mixed), "1/3 links  (.auth absent, .envrc: denied)");
}

#[test]
fn the_rows_of_ls_line_up() {
    let ws = vec![
        Worktree {
            path: "/r/main".into(),
            branch: Some("main".into()),
        },
        Worktree {
            path: "/r/eng-1234".into(),
            branch: None,
        },
    ];
    assert_eq!(rows(&ws, &None), ["main      main", "eng-1234  (detached)"]);
    let l = Some(vec!["1/1 links".to_string(), "0/1 links".to_string()]);
    assert_eq!(
        rows(&ws, &l),
        ["main      main        1/1 links", "eng-1234  (detached)  0/1 links"]
    );
}

#[test]
fn sync_reports_only_what_needs_attention() {
    assert_eq!(summary(0, 0), None);
    assert_eq!(summary(3, 0), None);
    assert_eq!(
        summary(2, 1).as_deref(),
        Some("2 link(s) made. 1 path(s) need your attention. use --force to replace them")
    );
}

#[test]
fn the_shell_integration_is_for_fish() {
    assert_eq!(shell_init("fish").unwrap(), FISH);
    assert!(FISH.contains("function wt --wraps wt"));
    assert_eq!(
        shell_init("bash").unwrap_err().message(),
        "wt cannot make code for the shell bash. wt supports fish only"
    );
}

#[test]
fn two_files_are_the_same_when_each_byte_is() {
    assert!(same_bytes(&b"abc".to_vec(), &b"abc".to_vec()));
    assert!(!same_bytes(&b"abc".to_vec(), &b"abd".to_vec()));
    assert!(!same_bytes(&b"abc".to_vec(), &b"ab".to_vec()));
    assert!(same_bytes(&Vec::new(), &Vec::new()));
}

#[test]
fn the_walk_over_entries_stops_at_the_first_difference() {
    assert_eq!(entry_step(&vec![], 2), EntryStep::Next(0));
    assert_eq!(entry_step(&vec![true], 2), EntryStep::Next(1));
    assert_eq!(entry_step(&vec![true, true], 2), EntryStep::Done { same: true });
    assert_eq!(entry_step(&vec![true, false], 3), EntryStep::Done { same: false });
    assert_eq!(entry_step(&vec![], 0), EntryStep::Done { same: true });
}

#[test]
fn a_second_pass_finds_the_link_of_the_first() {
    for present in [
        Present::Absent,
        Present::Link { to_store: false },
        Present::Link { to_store: true },
        Present::Other { same_content: true },
        Present::Other { same_content: false },
    ] {
        let (action, outcome) = plan(true, present, true);
        assert!(outcome.is_change() || outcome == Outcome::AlreadyLinked);
        let after = if action == Action::Keep { present } else { Present::Link { to_store: true } };
        for force in [false, true] {
            assert_eq!(plan(true, after, force), (Action::Keep, Outcome::AlreadyLinked));
        }
    }
}

#[test]
fn sync_counts_the_links_and_the_skipped_paths() {
    let outcomes = vec![
        Outcome::Linked,
        Outcome::AlreadyLinked,
        Outcome::SkippedDivergent,
        Outcome::Replaced,
        Outcome::MissingInStore,
        Outcome::Forced,
    ];
    assert_eq!(tally(&outcomes), (3, 2));
    assert_eq!(tally(&vec![]), (0, 0));
}

#[test]
fn the_shell_integration_knows_each_short_form() {
    let passthrough = FISH
        .lines()
        .find(|l| l.trim_start().starts_with("case ''"))
        .unwrap();
    for word in [
        "init", "share", "sh", "ls", "l", "sync", "s", "delete", "d", "prune", "p", "shell-init",
    ] {
        assert!(
            passthrough.split_whitespace().any(|w| w == word),
            "{word} writes for the user"
        );
    }
    for word in ["add", "a", "cd", "c", "clone"] {
        assert!(!passthrough.split_whitespace().any(|w| w == word), "{word} prints a path");
    }
    for short in ["sh", "a", "c", "l", "s", "d", "p"] {
        assert!(FISH.contains(&format!("__fish_use_subcommand -a {short} ")));
    }
    assert!(FISH.contains("__fish_seen_subcommand_from add a'"));
    assert!(FISH.contains("__fish_seen_subcommand_from delete d'"));
    assert!(FISH.contains("__fish_seen_subcommand_from cd c'"));
    assert!(FISH.contains("__fish_seen_subcommand_from share sh'"));
}
