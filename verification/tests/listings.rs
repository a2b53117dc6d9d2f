use wt::cmd::clone::default_name;
use wt::cmd::completions::{branches, shareable};
use wt::cmd::{is_command, CommandName};
use wt::manifest::Manifest;

#[test]
fn a_clone_is_named_after_the_repository() {
    assert_eq!(default_name("git@github.com:owner/project.git"), "project");
    assert_eq!(default_name("https://github.com/owner/project/"), "project");
    assert_eq!(default_name("host:project.git"), "project");
    assert_eq!(default_name("project"), "project");
}

#[test]
fn each_branch_appears_once_in_order() {
    let text = "main\neng-2\norigin/HEAD\norigin/main\norigin/eng-1\norigin\n";
    assert_eq!(branches(text), ["eng-1", "eng-2", "main", "origin"]);
    assert!(branches("").is_empty());
}

#[test]
fn the_shareable_paths_skip_those_in_the_manifest() {
    let m = Manifest {
        link: vec![".env".to_string()],
    };
    let text = ".env\n.auth/\nnode_modules/\n/\n";
    assert_eq!(shareable(text, &m), [".auth", "node_modules"]);
}

#[test]
fn a_command_wins_over_a_worktree() {
    let table = vec![
        CommandName {
            name: "delete".into(),
            aliases: vec!["d".into()],
        },
        CommandName {
            name: "ls".into(),
            aliases: vec!["l".into()],
        },
    ];
    assert!(is_command(&"d".to_string(), &table));
    assert!(is_command(&"ls".to_string(), &table));
    assert!(is_command(&"help".to_string(), &table));
    assert!(!is_command(&"eng-1".to_string(), &table));
}
