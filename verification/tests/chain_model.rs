use symseek::{FileKind, FileLocation, LinkType, SymlinkChain, SymlinkNode};

#[test]
fn test_symlink_chain_new() {
    let path = String::from("/test/path");
    let chain = SymlinkChain::new(path.clone());

    assert_eq!(chain.origin, path);
    assert!(chain.is_empty());
    assert_eq!(chain.links.len(), 0);
}

#[test]
fn test_add_link() {
    let mut chain = SymlinkChain::new(String::from("/origin"));

    chain.add_link(String::from("/link1"), false, LinkType::Symlink);
    assert!(!chain.is_empty());
    assert_eq!(chain.links.len(), 1);
    assert!(!chain.links[0].is_final);

    chain.add_link(
        String::from("/link2"),
        true,
        LinkType::Terminal(FileKind::Binary),
    );
    assert_eq!(chain.links.len(), 2);
    assert!(chain.links[1].is_final);
}

#[test]
fn test_file_location_current_directory() {
    let loc = FileLocation::CurrentDirectory(String::from("/cwd/file"));
    match loc {
        FileLocation::CurrentDirectory(path) => assert_eq!(path, String::from("/cwd/file")),
        FileLocation::PathEnvironment(_) => panic!("Wrong variant"),
    }
}

#[test]
fn test_file_location_path_environment() {
    let paths = vec![
        String::from("/usr/bin/exe"),
        String::from("/usr/local/bin/exe"),
    ];
    let loc = FileLocation::PathEnvironment(paths.clone());

    match loc {
        FileLocation::PathEnvironment(matched_paths) => {
            assert_eq!(matched_paths.len(), 2);
            assert_eq!(matched_paths, paths);
        }
        FileLocation::CurrentDirectory(_) => panic!("Wrong variant"),
    }
}

#[test]
fn test_symlink_node_creation() {
    let node = SymlinkNode {
        target: String::from("/target"),
        is_final: true,
        link_type: LinkType::Terminal(FileKind::Binary),
        metadata: None,
    };

    assert_eq!(node.target, String::from("/target"));
    assert!(node.is_final);
}

#[test]
fn test_chain_with_multiple_links() {
    let mut chain = SymlinkChain::new(String::from("/start"));

    for i in 0..5 {
        let is_final = i == 4;
        chain.add_link(format!("/link{i}"), is_final, LinkType::Symlink);
    }

    assert_eq!(chain.links.len(), 5);
    assert!(!chain.is_empty());
    assert!(chain.links[4].is_final);
    assert!(!chain.links[0].is_final);
}
