use wt::config::{key_from_url, Config, RepoConfig};

#[test]
fn each_url_form_gives_the_same_key() {
    for url in [
        "git@github.com:owner/repo.git",
        "git@github.com:owner/repo",
        "https://github.com/owner/repo.git",
        "https://github.com/owner/repo",
        "ssh://git@github.com/owner/repo.git",
        "https://github.com/owner/repo/",
    ] {
        assert_eq!(key_from_url(url), "github.com/owner/repo", "for {url}");
    }
}

#[test]
fn the_key_keeps_the_host_and_the_path() {
    assert_eq!(
        key_from_url("git@gitlab.example.com:group/sub/repo.git"),
        "gitlab.example.com/group/sub/repo"
    );
}

#[test]
fn two_repositories_do_not_share_a_key() {
    assert_ne!(
        key_from_url("git@github.com:owner/one.git"),
        key_from_url("git@github.com:owner/two.git")
    );
}

#[test]
fn the_key_keeps_a_port_and_drops_white_space() {
    assert_eq!(
        key_from_url("ssh://git@host.example:2222/owner/repo.git"),
        "host.example:2222/owner/repo"
    );
    assert_eq!(key_from_url("  http://host/a/b.git/  \n"), "host/a/b");
    assert_eq!(key_from_url("git://host/a"), "host/a");
    assert_eq!(key_from_url("git@host:/a/b"), "host/a/b");
    assert_eq!(key_from_url(""), "");
}

#[test]
fn insert_keeps_the_list_sorted_and_each_path_once() {
    let mut c = RepoConfig::default();
    c.insert(".envrc");
    c.insert(".auth");
    c.insert(".env.override");
    c.insert(".auth");
    assert_eq!(c.link, [".auth", ".env.override", ".envrc"]);
    assert!(c.contains(".auth"));
    assert!(!c.contains(".env"));
}

#[test]
fn insert_sorts_a_list_that_was_not_sorted() {
    let mut c = RepoConfig {
        link: vec!["b".to_string(), "a".to_string()],
    };
    c.insert("c");
    assert_eq!(c.link, ["a", "b", "c"]);
    let mut d = RepoConfig {
        link: vec!["b".to_string(), "a".to_string()],
    };
    d.insert("a");
    assert_eq!(d.link, ["b", "a"]);
}

#[test]
fn repo_mut_makes_an_empty_entry_in_the_order_of_the_keys() {
    let mut config = Config::default();
    assert!(config.repo("github.com/b/b").is_none());
    config.repo_mut("github.com/b/b").insert(".env");
    config.repo_mut("github.com/a/a");
    config.repo_mut("github.com/c/c");
    let keys: Vec<&str> = config.repos.iter().map(|(k, _)| k.as_str()).collect();
    assert_eq!(keys, ["github.com/a/a", "github.com/b/b", "github.com/c/c"]);
    assert_eq!(config.repo("github.com/b/b").unwrap().link, [".env"]);
    assert!(config.repo("github.com/a/a").unwrap().link.is_empty());
    config.repo_mut("github.com/b/b").insert(".auth");
    assert_eq!(config.repos.len(), 3);
    assert_eq!(config.repo("github.com/b/b").unwrap().link, [".auth", ".env"]);
}

#[test]
fn the_config_file_follows_xdg_config_home_then_home() {
    let s = |x: &str| Some(x.to_string());
    assert_eq!(
        Config::path(s("/x"), s("/home/u")).as_deref(),
        Some("/x/wt/config.toml")
    );
    assert_eq!(
        Config::path(s(""), s("/home/u")).as_deref(),
        Some("/home/u/.config/wt/config.toml")
    );
    assert_eq!(
        Config::path(None, s("/home/u")).as_deref(),
        Some("/home/u/.config/wt/config.toml")
    );
    assert_eq!(Config::path(s("/x/"), None).as_deref(), Some("/x/wt/config.toml"));
    assert_eq!(Config::path(None, None), None);
    assert_eq!(Config::path(s(""), None), None);
}
