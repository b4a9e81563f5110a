use symseek::{format_path, FileKind, JsonChain, LinkType, ScriptType, SymlinkChain, WrapperKind};

#[test]
fn test_json_chain_from_simple_symlink() {
    let mut chain = SymlinkChain::new(String::from("/usr/bin/python"));
    chain.add_link(String::from("/usr/bin/python3"), false, LinkType::Symlink);
    chain.add_link(
        String::from("/usr/bin/python3.12"),
        true,
        LinkType::Terminal(FileKind::Binary),
    );

    let json_chain = JsonChain::from_chain(&chain);

    assert_eq!(json_chain.origin, "/usr/bin/python");
    assert_eq!(json_chain.links.len(), 2);
    assert_eq!(json_chain.links[0].link_type, "symlink");
    assert_eq!(json_chain.links[1].link_type, "terminal");
    assert!(json_chain.links[1].is_final);
}

#[test]
fn test_json_wrapper_kinds() {
    let test_cases = vec![
        (WrapperKind::Binary, "binary"),
        (WrapperKind::Text(ScriptType::Shell), "shell_script"),
        (WrapperKind::Text(ScriptType::Python), "python_script"),
        (WrapperKind::Text(ScriptType::Perl), "perl_script"),
        (WrapperKind::Text(ScriptType::Unknown), "unknown_script"),
    ];

    for (wrapper_kind, expected_str) in test_cases {
        let mut chain = SymlinkChain::new(String::from("/test"));
        chain.add_link(
            String::from("/wrapper"),
            false,
            LinkType::Wrapper(wrapper_kind),
        );

        let json_chain = JsonChain::from_chain(&chain);
        assert_eq!(
            json_chain.links[0].wrapper_kind.as_deref(),
            Some(expected_str)
        );
    }
}

#[test]
fn test_format_path_with_special_chars() {
    let paths = vec![
        "/normal/path",
        "/path/with/../dots",
        "/path/with/./current",
        "/path//double//slash",
    ];

    for path_str in paths {
        let formatted = format_path(path_str);
        assert!(!formatted.contains(".."));
        assert!(!formatted.contains("//"));
    }
}

#[test]
fn test_json_chain_empty() {
    let chain = SymlinkChain::new(String::from("/test"));
    let json_chain = JsonChain::from_chain(&chain);

    assert_eq!(json_chain.origin, "/test");
    assert!(json_chain.links.is_empty());
}

#[test]
fn test_json_serialization_roundtrip() {
    let mut chain = SymlinkChain::new(String::from("/usr/bin/nvim"));
    chain.add_link(
        String::from("/nix/store/xxx-nvim-wrapper/bin/nvim"),
        false,
        LinkType::Wrapper(WrapperKind::Text(ScriptType::Shell)),
    );
    chain.add_link(
        String::from("/nix/store/yyy-nvim/bin/nvim"),
        true,
        LinkType::Terminal(FileKind::Binary),
    );

    let json_chain = JsonChain::from_chain(&chain);
    let json_str = json_chain.to_json_string();

    let parsed = JsonChain::from_json_str(&json_str).unwrap();
    assert_eq!(parsed.origin, json_chain.origin);
    assert_eq!(parsed.links.len(), json_chain.links.len());
    for (a, b) in parsed.links.iter().zip(json_chain.links.iter()) {
        assert_eq!(a.path, b.path);
        assert_eq!(a.link_type, b.link_type);
        assert_eq!(a.wrapper_kind, b.wrapper_kind);
        assert_eq!(a.file_kind, b.file_kind);
        assert_eq!(a.is_final, b.is_final);
    }
}

#[test]
fn test_json_terminal_file_kinds() {
    let test_cases = vec![(FileKind::Binary, "binary"), (FileKind::Text, "text")];

    for (file_kind, expected_str) in test_cases {
        let mut chain = SymlinkChain::new(String::from("/test"));
        chain.add_link(String::from("/file"), true, LinkType::Terminal(file_kind));

        let json_chain = JsonChain::from_chain(&chain);
        assert_eq!(json_chain.links[0].file_kind.as_deref(), Some(expected_str));
        assert!(json_chain.links[0].is_final);
    }
}

#[test]
fn emitted_text_is_real_json() {
    let mut chain = SymlinkChain::new(String::from("/usr/bin/python"));
    chain.add_link(String::from("/usr/bin/python3"), false, LinkType::Symlink);
    chain.add_link(
        String::from("/usr/bin/python3.12"),
        true,
        LinkType::Terminal(FileKind::Binary),
    );
    let json_chain = JsonChain::from_chain(&chain);
    let text = json_chain.to_json_string();

    let value: serde_json::Value = serde_json::from_str(&text).unwrap();
    assert_eq!(value["origin"], "/usr/bin/python");
    let links = value["links"].as_array().unwrap();
    assert_eq!(links.len(), 2);
    assert_eq!(links[0]["path"], "/usr/bin/python3");
    assert_eq!(links[0]["type"], "symlink");
    assert!(links[0].get("wrapper_kind").is_none());
    assert!(links[0].get("is_final").is_none());
    assert_eq!(links[1]["type"], "terminal");
    assert_eq!(links[1]["file_kind"], "binary");
    assert_eq!(links[1]["is_final"], true);
}

#[test]
fn roundtrip_keeps_paths_with_quotes_and_backslashes() {
    let mut chain = SymlinkChain::new(String::from("/odd"));
    chain.add_link(
        String::from("/odd/a\"b\\c"),
        true,
        LinkType::Terminal(FileKind::Text),
    );
    let json_chain = JsonChain::from_chain(&chain);
    let text = json_chain.to_json_string();
    let parsed = JsonChain::from_json_str(&text).unwrap();
    assert_eq!(parsed.links[0].path, json_chain.links[0].path);

    let value: serde_json::Value = serde_json::from_str(&text).unwrap();
    assert_eq!(value["links"][0]["path"], json_chain.links[0].path.as_str());
}

#[test]
fn from_json_str_rejects_malformed_text() {
    assert!(JsonChain::from_json_str("").is_none());
    assert!(JsonChain::from_json_str("{\"origin\":\"/a\",\"links\":[]").is_none());
    assert!(JsonChain::from_json_str("{\"origin\":\"/a\",\"links\":[]}x").is_none());
}
