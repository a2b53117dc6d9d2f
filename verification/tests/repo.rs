use wt::repo::{Repo, RepoError, Worktree};

fn repo(common: &str) -> Repo {
    Repo {
        common: common.to_string(),
    }
}

#[test]
fn the_list_skips_the_bare_repository() {
    let text = "worktree /repo/.bare\nbare\n\nworktree /repo/main\nHEAD 1234\nbranch refs/heads/main\n\nworktree /repo/eng-1\nHEAD 5678\ndetached\n";
    let ws = repo("/repo/.bare").worktrees(text);
    assert_eq!(ws.len(), 2);
    assert_eq!(ws[0].path, "/repo/main");
    assert_eq!(ws[0].branch.as_deref(), Some("main"));
    assert_eq!(ws[1].path, "/repo/eng-1");
    assert_eq!(ws[1].branch, None);
}

#[test]
fn the_list_reads_a_record_without_a_blank_line_after_it() {
    let text = "worktree /r/a\nbranch refs/heads/feature/x\nworktree /r/b\nbranch refs/heads/b";
    let ws = repo("/r.git").worktrees(text);
    assert_eq!(ws.len(), 2);
    assert_eq!(ws[0].branch.as_deref(), Some("feature/x"));
    assert_eq!(ws[1].path, "/r/b");
    assert!(repo("/r.git").worktrees("").is_empty());
    assert!(repo("/r.git").worktrees("worktree /r.git\r\nbare\r\n").is_empty());
}

#[test]
fn the_name_of_a_worktree_is_the_last_segment_of_its_path() {
    let w = Worktree {
        path: "/repo/eng-1/".to_string(),
        branch: None,
    };
    assert_eq!(w.name(), "eng-1");
    let root = Worktree {
        path: "/".to_string(),
        branch: None,
    };
    assert_eq!(root.name(), "/");
}

#[test]
fn the_store_the_manifest_and_the_hook_are_in_the_common_directory() {
    let r = repo("/home/u/project/.bare");
    assert_eq!(r.shared(), "/home/u/project/.bare/shared");
    assert_eq!(r.manifest_path(), "/home/u/project/.bare/worktree-shared.toml");
    assert_eq!(r.hook_path(), "/home/u/project/.bare/hooks/post-checkout");
}

#[test]
fn new_worktrees_go_beside_the_bare_directory() {
    assert_eq!(repo("/home/u/project/.bare").container(), "/home/u/project");
    assert_eq!(repo("/home/u/project.git").container(), "/home/u/project.git");
    assert_eq!(repo("/.bare").container(), "/");
}

#[test]
fn the_base_branch_comes_from_origin_head_then_main_then_master() {
    let r = repo("/r/.bare");
    assert_eq!(
        r.default_base(Some("origin/trunk".into()), true, true).unwrap(),
        "origin/trunk"
    );
    assert_eq!(r.default_base(Some("".into()), true, true).unwrap(), "origin/main");
    assert_eq!(r.default_base(None, false, true).unwrap(), "origin/master");
    let e = r.default_base(None, false, false).unwrap_err();
    assert!(matches!(e, RepoError::NoBase));
    assert_eq!(
        e.message(),
        "cannot determine a base branch: origin/HEAD is unset and neither origin/main nor origin/master exists"
    );
}

#[test]
fn a_repository_without_a_manifest_is_refused() {
    let r = repo("/r/.bare");
    assert!(r.require_managed(true).is_ok());
    let e = r.require_managed(false).unwrap_err();
    assert_eq!(
        e.message(),
        "wt does not control /r/.bare. the file worktree-shared.toml is not present\n  run `wt init` first"
    );
}
