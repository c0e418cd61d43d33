use lml::paths::{default_path, join, resolve};

#[test]
fn relative_paths_resolve_from_the_catalog_directory() {
    assert_eq!(resolve("/cat", "models/a.gguf", None).unwrap(), "/cat/models/a.gguf");
}

#[test]
fn home_prefix_expands() {
    assert_eq!(resolve("/cat", "~/models/a.gguf", Some("/home/u")).unwrap(), "/home/u/models/a.gguf");
    let e = resolve("/cat", "~/models/a.gguf", None).unwrap_err();
    assert_eq!(e.message, "HOME is not set");
}

#[test]
fn tilde_only_counts_as_a_whole_component() {
    assert_eq!(resolve("/cat", "~x/a", Some("/home/u")).unwrap(), "/cat/~x/a");
}

#[test]
fn absolute_paths_stay() {
    assert_eq!(resolve("/cat", "/models/a.gguf", None).unwrap(), "/models/a.gguf");
    assert_eq!(join("/a", "/b"), "/b");
}

#[test]
fn default_catalog_path() {
    assert_eq!(default_path(Some("/xdg"), None).unwrap(), "/xdg/lml/config.toml");
    assert_eq!(default_path(None, Some("/home/u")).unwrap(), "/home/u/.config/lml/config.toml");
    assert_eq!(default_path(None, None).unwrap_err().message, "HOME is not set");
}

#[test]
fn tilde_alone_is_home() {
    assert!(resolve("/cat", "~", Some("/home/u")).unwrap().starts_with("/home/u"));
    assert_eq!(resolve("/cat", "~", None).unwrap_err().message, "HOME is not set");
}

#[test]
fn relative_joins_add_one_separator() {
    assert_eq!(join("/a", "b"), "/a/b");
    assert_eq!(join("/a/", "b"), "/a/b");
    assert_eq!(join("", "b"), "b");
    assert_eq!(join("/a", ""), "/a/");
    assert_eq!(resolve("/cat/", "models", Some("/home/u")).unwrap(), "/cat/models");
    assert_eq!(resolve("/cat", "", None).unwrap(), "/cat/");
}
