use symseek::{classify_buffer, FileType};

#[test]
fn test_detect_elf_binary() {
    let elf_magic = [0x7f, b'E', b'L', b'F', 0x02, 0x01, 0x01, 0x00];
    let file_type = classify_buffer(&elf_magic);
    assert!(matches!(file_type, FileType::ElfBinary));
}

#[test]
fn elf_magic_wins_over_any_remaining_content() {
    let mut content = vec![0x7f, b'E', b'L', b'F'];
    content.extend_from_slice(b"#!/bin/bash\ntotally text\n");
    assert!(matches!(classify_buffer(&content), FileType::ElfBinary));

    let mut junk = vec![0x7f, b'E', b'L', b'F'];
    junk.extend_from_slice(&[0xff, 0xfe, 0x00, 0x01]);
    assert!(matches!(classify_buffer(&junk), FileType::ElfBinary));
}

#[test]
fn test_detect_shell_script() {
    let script = "#!/bin/bash\necho 'hello'\n";
    let file_type = classify_buffer(script.as_bytes());
    assert!(matches!(file_type, FileType::ShellScript));
}

#[test]
fn test_detect_shell_script_variants() {
    let variants = vec![
        "#!/bin/sh",
        "#!/usr/bin/bash",
        "#!/usr/bin/env bash",
        "#!/bin/zsh",
    ];

    for shebang in variants {
        let content = format!("{shebang}\necho test");
        let detected = classify_buffer(content.as_bytes());
        assert!(matches!(detected, FileType::ShellScript));
    }
}

#[test]
fn shebang_match_is_case_insensitive() {
    assert!(matches!(
        classify_buffer(b"#!/bin/BASH\necho x\n"),
        FileType::ShellScript
    ));
    assert!(matches!(
        classify_buffer(b"#!/usr/bin/PYTHON3\n"),
        FileType::PythonScript
    ));
}

#[test]
fn classification_of_signature_contents() {
    assert!(matches!(
        classify_buffer(b"#!/bin/bash\necho x\n"),
        FileType::ShellScript
    ));
    assert!(matches!(
        classify_buffer(b"#!/usr/bin/env python3\n"),
        FileType::PythonScript
    ));
    assert!(matches!(
        classify_buffer("any old notes, no shebang".as_bytes()),
        FileType::OtherText
    ));
    assert!(matches!(
        classify_buffer(&[0xff, 0xfe, 0x41]),
        FileType::OtherBinary
    ));
}

#[test]
fn test_detect_python_script() {
    let script = "#!/usr/bin/python3\nprint('hello')\n";
    let file_type = classify_buffer(script.as_bytes());
    assert!(matches!(file_type, FileType::PythonScript));
}

#[test]
fn test_detect_perl_script() {
    let script = "#!/usr/bin/perl\nprint \"hello\\n\";\n";
    let file_type = classify_buffer(script.as_bytes());
    assert!(matches!(file_type, FileType::PerlScript));
}

#[test]
fn test_detect_other_script() {
    let script = "#!/usr/bin/ruby\nputs 'hello'\n";
    let file_type = classify_buffer(script.as_bytes());
    assert!(matches!(file_type, FileType::OtherScript));
}

#[test]
fn test_detect_plain_text() {
    let content = "This is plain text\nwith multiple lines\n";
    let file_type = classify_buffer(content.as_bytes());
    assert!(matches!(file_type, FileType::OtherText));
}

#[test]
fn test_detect_other_binary() {
    let binary_data = &[0x89, 0x50, 0x4E, 0x47];
    let file_type = classify_buffer(binary_data);
    assert!(matches!(file_type, FileType::OtherBinary));
}
