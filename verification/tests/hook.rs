use wt::hook::{check, install_plan, install_target, is_creation, stable_candidates, HookError, Install};

#[test]
fn the_stable_paths_come_first() {
    assert_eq!(
        stable_candidates(Some("/home/u".into())),
        [
            "/home/u/.local/bin/wt",
            "/home/u/.nix-profile/bin/wt",
            "/run/current-system/sw/bin/wt"
        ]
    );
    assert_eq!(stable_candidates(None), ["/run/current-system/sw/bin/wt"]);
}

#[test]
fn the_hook_points_to_the_first_stable_path_that_is_present() {
    let c = stable_candidates(Some("/home/u".into()));
    assert_eq!(
        install_target(&c, &vec![false, true, true], Some("/usr/bin/wt".into())).unwrap(),
        "/home/u/.nix-profile/bin/wt"
    );
    assert_eq!(
        install_target(&c, &vec![false, false, false], Some("/usr/bin/wt".into())).unwrap(),
        "/usr/bin/wt"
    );
}

#[test]
fn a_hook_must_not_point_into_the_nix_store() {
    let c = stable_candidates(None);
    let e = install_target(&c, &vec![false], Some("/nix/store/abc-wt/bin/wt".into())).unwrap_err();
    assert!(matches!(e, HookError::NixStore { .. }));
    assert!(e.message().starts_with("the program is at /nix/store/abc-wt/bin/wt\n  a git hook must not point to a /nix/store path"));
    assert!(e.message().contains("    ln -s /nix/store/abc-wt/bin/wt ~/.local/bin/wt\n  or install"));
    assert_eq!(
        install_target(&c, &vec![false], Some("/nix/storefront/wt".into())).unwrap(),
        "/nix/storefront/wt"
    );
    assert!(matches!(
        install_target(&c, &vec![false], None),
        Err(HookError::NoProgramPath)
    ));
}

#[test]
fn a_correct_hook_is_left_alone() {
    let t = "/home/u/.local/bin/wt".to_string();
    assert_eq!(install_plan(&Some(t.clone()), true, &t), Install::Unchanged);
    assert_eq!(install_plan(&Some("/old".into()), true, &t), Install::Replace);
    assert_eq!(install_plan(&None, true, &t), Install::Replace);
    assert_eq!(install_plan(&None, false, &t), Install::Create);
}

#[test]
fn the_check_turns_a_silent_failure_into_a_message() {
    assert_eq!(check("/r/.bare/hooks/post-checkout", true, true, Some("/x".into())), None);
    assert_eq!(
        check("/r/.bare/hooks/post-checkout", false, false, None).unwrap(),
        "the post-checkout hook is not at /r/.bare/hooks/post-checkout. wt cannot make the links automatically. run `wt init`"
    );
    assert_eq!(
        check("/h", true, false, Some("/gone/wt".into())).unwrap(),
        "the post-checkout hook points to /gone/wt, and that path is not present\n  git ignores the hook and shows no error. run `wt init` to correct it"
    );
    assert!(check("/h", true, false, None).unwrap().starts_with("the post-checkout hook points to ?,"));
}

#[test]
fn the_hook_acts_only_for_a_new_worktree() {
    let args = |a: &str| vec![a.to_string(), "abc".to_string(), "1".to_string()];
    assert!(is_creation(&args("0000000000000000000000000000000000000000")));
    assert!(!is_creation(&args("1234")));
    assert!(!is_creation(&args("")));
    assert!(!is_creation(&vec![]));
}
