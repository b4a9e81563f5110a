use symseek::{file_name_of, is_absolute, parent_of, resolve_target};

#[test]
fn test_resolve_target_absolute() {
    let resolved = resolve_target("/usr/bin/link", "/usr/local/bin/target");
    assert_eq!(resolved, "/usr/local/bin/target");
}

#[test]
fn test_resolve_target_relative() {
    let resolved = resolve_target("/usr/bin/link", "../lib/target");
    assert_eq!(resolved, "/usr/lib/target");
}

#[test]
fn test_resolve_target_with_dots() {
    let resolved = resolve_target("/usr/bin/link", "./target");
    assert_eq!(resolved, "/usr/bin/target");
}

#[test]
fn absoluteness_is_a_leading_slash() {
    assert!(is_absolute("/"));
    assert!(is_absolute("/usr/bin/x"));
    assert!(!is_absolute(""));
    assert!(!is_absolute("relative/path"));
}

#[test]
fn parent_of_walks_one_component_up() {
    assert_eq!(parent_of("/usr/bin/link"), "/usr/bin");
    assert_eq!(parent_of("/link"), "/");
    assert_eq!(parent_of("/"), "/");
    assert_eq!(parent_of("/usr//link"), "/usr");
    assert_eq!(parent_of("/foo/link/"), "/foo");
}

#[test]
fn file_name_ignores_dots_and_trailing_slashes() {
    assert_eq!(file_name_of("/usr/bin/nvim"), "nvim");
    assert_eq!(file_name_of("/usr/bin/"), "bin");
    assert_eq!(file_name_of("/usr/bin/."), "bin");
    assert_eq!(file_name_of("/"), "");
    assert_eq!(file_name_of("/a/b/.."), "");
}
