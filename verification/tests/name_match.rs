use symseek::{extract_strings_from_binary, normalize_program_name, programs_match};

#[test]
fn test_normalize_program_name_basic() {
    assert_eq!(normalize_program_name("nvim"), "nvim");
    assert_eq!(normalize_program_name("python3"), "python3");
    assert_eq!(normalize_program_name("gcc"), "gcc");
}

#[test]
fn test_normalize_program_name_wrapped() {
    assert_eq!(normalize_program_name("nvim-wrapped"), "nvim");
    assert_eq!(normalize_program_name("gcc-wrapped"), "gcc");
    assert_eq!(normalize_program_name("bash-wrapped"), "bash");
}

#[test]
fn test_normalize_program_name_unwrapped() {
    assert_eq!(normalize_program_name("nvim-unwrapped"), "nvim");
    assert_eq!(normalize_program_name("python-unwrapped"), "python");
    assert_eq!(normalize_program_name("gcc-unwrapped"), "gcc");
}

#[test]
fn test_normalize_program_name_dot_prefix() {
    assert_eq!(normalize_program_name(".nvim-wrapped"), "nvim");
    assert_eq!(normalize_program_name(".hidden"), "hidden");
    assert_eq!(normalize_program_name(".python-unwrapped"), "python");
}

#[test]
fn test_normalize_program_name_edge_cases() {
    assert_eq!(normalize_program_name(""), "");
}

#[test]
fn wrapped_and_hidden_unwrapped_normalize_alike() {
    assert_eq!(normalize_program_name("nvim-wrapped"), "nvim");
    assert_eq!(normalize_program_name(".nvim-unwrapped"), "nvim");
    assert_eq!(
        normalize_program_name("nvim-wrapped"),
        normalize_program_name(".nvim-unwrapped")
    );
}

#[test]
fn test_programs_match_exact() {
    assert!(programs_match("/usr/bin/nvim", "/nix/store/xxx/bin/nvim"));
}

#[test]
fn test_programs_match_wrapped_variants() {
    let original = "/usr/bin/nvim";
    let wrapped = "/usr/bin/nvim-wrapped";
    let unwrapped = "/nix/store/xxx/bin/nvim-unwrapped";

    assert!(programs_match(original, wrapped));
    assert!(programs_match(original, unwrapped));
    assert!(programs_match(wrapped, unwrapped));
}

#[test]
fn test_programs_match_different_programs() {
    assert!(!programs_match("/usr/bin/nvim", "/usr/bin/vim"));
}

#[test]
fn test_programs_match_dot_prefix() {
    assert!(programs_match("/usr/bin/nvim", "/usr/bin/.nvim-wrapped"));
}

#[test]
fn test_programs_match_different_suffixes() {
    assert!(!programs_match("/usr/bin/vim", "/usr/local/bin/nano"));
}

#[test]
fn test_extract_strings_simple() {
    let binary = b"Hello\0World\0";
    let result = extract_strings_from_binary(binary);
    assert!(result.contains("Hello"));
    assert!(result.contains("World"));
}

#[test]
fn test_extract_strings_with_nix_paths() {
    let binary = b"\x00\x01\x02/nix/store/abc123-pkg/bin/exe\0more data\0";
    let result = extract_strings_from_binary(binary);
    assert!(result.contains("/nix/store/abc123-pkg/bin/exe"));
    assert!(result.contains("more data"));
}

#[test]
fn test_extract_strings_filters_non_printable() {
    let binary = b"Valid\0\x01\x02\x03Other\0Next\0";
    let result = extract_strings_from_binary(binary);
    assert!(result.contains("Valid"));
    assert!(result.contains("Other"));
    assert!(result.contains("Next"));
}

#[test]
fn test_extract_strings_empty() {
    let binary = b"";
    let result = extract_strings_from_binary(binary);
    assert_eq!(result, "");
}

#[test]
fn test_extract_strings_only_binary() {
    let binary = &[0x01, 0x02, 0x03, 0x04, 0xff, 0xfe];
    let result = extract_strings_from_binary(binary);
    assert_eq!(result, "");
}

#[test]
fn test_extract_strings_multiple_sequences() {
    let binary = b"first\0second\0third\0";
    let result = extract_strings_from_binary(binary);
    assert!(result.contains("first"));
    assert!(result.contains("second"));
    assert!(result.contains("third"));
}

#[test]
fn extract_drops_an_unterminated_trailing_run() {
    let result = extract_strings_from_binary(b"kept\0dropped");
    assert_eq!(result, "kept\n");
}
