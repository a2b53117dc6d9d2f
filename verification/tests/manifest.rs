use wt::manifest::Manifest;
use wt::path::{display_rel, file_name_of, join, parent_of, path_starts_with_exec};
use wt::text::join_strings;

#[test]
fn the_manifest_holds_each_path_once_in_order() {
    let mut m = Manifest::default();
    assert!(!m.contains(".env"));
    m.insert(".env");
    m.insert(".auth");
    m.insert(".env");
    m.insert("Zeta");
    m.insert("alpha");
    assert_eq!(m.link, [".auth", ".env", "Zeta", "alpha"]);
    assert!(m.contains(".env"));
}

#[test]
fn paths_join_as_pathbuf_does() {
    assert_eq!(join("/a", "b"), "/a/b");
    assert_eq!(join("/a/", "b"), "/a/b");
    assert_eq!(join("", "b"), "b");
    assert_eq!(join("/a", "/b"), "/b");
    assert_eq!(file_name_of("/a/b/").as_deref(), Some("b"));
    assert_eq!(file_name_of("/a/.."), None);
    assert_eq!(file_name_of("/"), None);
    assert_eq!(parent_of("/a/b").as_deref(), Some("/a"));
    assert_eq!(parent_of("/b").as_deref(), Some("/"));
    assert_eq!(parent_of("b").as_deref(), Some(""));
}

#[test]
fn paths_read_by_their_components() {
    assert_eq!(file_name_of("/a/b/.").as_deref(), Some("b"));
    assert_eq!(file_name_of("a/./b").as_deref(), Some("b"));
    assert_eq!(file_name_of("."), None);
    assert_eq!(parent_of("/a/b/.").as_deref(), Some("/a"));
    assert_eq!(parent_of("/a//b").as_deref(), Some("/a"));
    assert_eq!(parent_of("./a").as_deref(), Some("."));
    assert_eq!(parent_of("."), Some(String::new()));
    assert_eq!(parent_of("/"), None);
    assert_eq!(parent_of(""), None);
    assert!(!path_starts_with_exec("./a", "a"));
    assert!(path_starts_with_exec("./a/b", "./a"));
    assert!(path_starts_with_exec("/a/./b", "/a/b"));
    assert!(path_starts_with_exec("/a", ""));
    assert_eq!(display_rel("", "/a/b"), "/a/b");
    assert_eq!(display_rel("/a", "/a"), "");
}

#[test]
fn a_path_starts_with_its_directories() {
    assert!(path_starts_with_exec("/r/main/src", "/r/main"));
    assert!(path_starts_with_exec("/r/main", "/r/main/"));
    assert!(!path_starts_with_exec("/r/mainx", "/r/main"));
    assert!(!path_starts_with_exec("r/main", "/r/main"));
    assert_eq!(display_rel("/r/main", "/r/main/a/b"), "a/b");
    assert_eq!(display_rel("/r/main", "/other/a"), "/other/a");
}

#[test]
fn a_list_joins_with_the_separator() {
    let v = vec!["a".to_string(), "b".to_string(), "c".to_string()];
    assert_eq!(join_strings(&v, ", "), "a, b, c");
    assert_eq!(join_strings(&Vec::new(), ", "), "");
}
