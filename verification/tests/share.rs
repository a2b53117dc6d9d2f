use wt::cmd::share::{relative_entry, share_check, EntryError, ShareError, ShareFacts};

#[test]
fn a_path_below_the_current_directory_is_an_entry() {
    assert_eq!(relative_entry("/r/main", "/r/main", ".env").unwrap(), ".env");
    assert_eq!(
        relative_entry("/r/main", "/r/main/terraform", "./vars.tfvars").unwrap(),
        "terraform/vars.tfvars"
    );
    assert_eq!(
        relative_entry("/r/main", "/r/main/a/b", "../../.envrc").unwrap(),
        ".envrc"
    );
    assert_eq!(relative_entry("/r/main", "/elsewhere", "/r/main/x/").unwrap(), "x");
}

#[test]
fn a_path_outside_the_worktree_is_refused() {
    let e = relative_entry("/r/main", "/r/main", "../other/.env").unwrap_err();
    assert!(matches!(e, EntryError::NotInWorktree { .. }));
    assert_eq!(e.message(), "../other/.env is not in the worktree at /r/main");
    assert!(relative_entry("/r/main", "/r/mainx", ".env").is_err());
}

#[test]
fn the_top_directory_is_refused() {
    let e = relative_entry("/r/main", "/r/main/a", "..").unwrap_err();
    assert!(matches!(e, EntryError::TopDirectory));
    assert_eq!(e.message(), "wt cannot share the top directory of the worktree");
}

fn good() -> ShareFacts {
    ShareFacts {
        in_manifest: false,
        git_files: String::new(),
        ignored: true,
        present: true,
        is_link: false,
        in_store: false,
    }
}

#[test]
fn a_path_that_git_ignores_can_be_shared() {
    assert!(share_check(&good(), "/r/main", ".env").is_ok());
}

#[test]
fn each_check_has_its_message() {
    let m = |f: ShareFacts| share_check(&f, "/r/main", ".env").unwrap_err().message();
    assert_eq!(
        m(ShareFacts {
            in_manifest: true,
            ..good()
        }),
        "the manifest contains this path"
    );
    assert_eq!(
        m(ShareFacts {
            git_files: "terraform/main.tf\nterraform/vars.tf".into(),
            ..good()
        }),
        "this path contains a tracked file, for example terraform/main.tf\n  git supplies each tracked file. give the ignored path instead"
    );
    assert_eq!(
        m(ShareFacts {
            ignored: false,
            ..good()
        }),
        "git does not ignore this path. wt controls only the ignored paths"
    );
    assert_eq!(
        m(ShareFacts {
            present: false,
            ..good()
        }),
        "this path is not in /r/main"
    );
    assert_eq!(
        m(ShareFacts {
            is_link: true,
            ..good()
        }),
        "this path is already a link"
    );
    assert_eq!(
        m(ShareFacts {
            in_store: true,
            ..good()
        }),
        "the store already contains shared/.env"
    );
    let e = share_check(
        &ShareFacts {
            in_manifest: true,
            ignored: false,
            ..good()
        },
        "/r/main",
        ".env",
    )
    .unwrap_err();
    assert!(matches!(e, ShareError::InManifest));
}
