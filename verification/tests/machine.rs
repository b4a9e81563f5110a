use symseek::{FileKind, LinkType, ProbeReply, ProbeRequest, Resolution, ScriptType, StepOutcome, SymseekError, WrapperKind};

fn expect_probe(out: StepOutcome) -> ProbeRequest {
    match out {
        StepOutcome::Probe(req) => req,
        other => panic!("expected a probe, got {:?}", other),
    }
}

/// Drive one full iteration over a path that is a symlink to `target`,
/// whose target is itself a symlink (so only a symlink hop is taken).
fn follow_symlink(m: &mut Resolution, target: &str) {
    let out = m.step(ProbeReply::LinkTarget(target.to_string()));
    match expect_probe(out) {
        ProbeRequest::CheckSymlink(p) => assert_eq!(p, target),
        other => panic!("unexpected probe {:?}", other),
    }
    let out = m.step(ProbeReply::SymlinkStatus(true));
    match expect_probe(out) {
        ProbeRequest::ReadLink(p) => assert_eq!(p, target),
        other => panic!("unexpected probe {:?}", other),
    }
}

/// Drive the machine through a terminal, plain-text file at the current
/// path, answering every remaining probe, and return the last outcome.
fn finish_plain_text(m: &mut Resolution, content: &[u8]) -> StepOutcome {
    let out = m.step(ProbeReply::NotSymlink);
    assert!(matches!(out, StepOutcome::Probe(ProbeRequest::CheckSymlink(_))));
    let out = m.step(ProbeReply::SymlinkStatus(false));
    assert!(matches!(out, StepOutcome::Probe(ProbeRequest::ReadPrefix(_))));
    let out = m.step(ProbeReply::PrefixBytes(content.to_vec()));
    assert!(matches!(out, StepOutcome::Probe(ProbeRequest::CheckSymlink(_))));
    let out = m.step(ProbeReply::SymlinkStatus(false));
    assert!(matches!(out, StepOutcome::Probe(ProbeRequest::ReadPrefix(_))));
    m.step(ProbeReply::PrefixBytes(content.to_vec()))
}

#[test]
fn relative_input_fails_before_any_probe() {
    let (m, out) = Resolution::start("relative/path");
    match out {
        StepOutcome::Failed(SymseekError::InvalidInput { message }) => {
            assert!(message.contains("absolute"));
        }
        other => panic!("Expected InvalidInput error, got {:?}", other),
    }
    assert!(m.chain.is_empty());
}

#[test]
fn single_symlink_gives_two_hops() {
    let (mut m, out) = Resolution::start("/tmp/link");
    match expect_probe(out) {
        ProbeRequest::ReadLink(p) => assert_eq!(p, "/tmp/link"),
        other => panic!("unexpected probe {:?}", other),
    }
    // the link points at the plain file /tmp/target
    let out = m.step(ProbeReply::LinkTarget("/tmp/target".to_string()));
    assert!(matches!(out, StepOutcome::Probe(ProbeRequest::CheckSymlink(_))));
    let out = m.step(ProbeReply::SymlinkStatus(false));
    assert!(matches!(out, StepOutcome::Probe(ProbeRequest::ReadPrefix(_))));
    let out = m.step(ProbeReply::PrefixBytes(b"hello\n".to_vec()));
    // the target was reached through a symlink, so it gets a symlink hop
    // and a final iteration of its own
    assert!(matches!(out, StepOutcome::Probe(ProbeRequest::ReadLink(_))));
    let out = finish_plain_text(&mut m, b"hello\n");
    assert!(matches!(out, StepOutcome::Done));

    assert_eq!(m.chain.links.len(), 2);
    assert!(matches!(m.chain.links[0].link_type, LinkType::Symlink));
    assert!(!m.chain.links[0].is_final);
    assert_eq!(m.chain.links[0].target, "/tmp/target");
    assert!(m.chain.links[1].is_final);
    assert!(matches!(
        m.chain.links[1].link_type,
        LinkType::Terminal(FileKind::Text)
    ));
}

#[test]
fn chain_of_three_symlinks_gives_four_hops() {
    let (mut m, out) = Resolution::start("/t/link1");
    assert!(matches!(out, StepOutcome::Probe(ProbeRequest::ReadLink(_))));
    follow_symlink(&mut m, "/t/link2");
    follow_symlink(&mut m, "/t/link3");
    // link3 points at the plain file /t/target
    let out = m.step(ProbeReply::LinkTarget("/t/target".to_string()));
    assert!(matches!(out, StepOutcome::Probe(ProbeRequest::CheckSymlink(_))));
    let out = m.step(ProbeReply::SymlinkStatus(false));
    assert!(matches!(out, StepOutcome::Probe(ProbeRequest::ReadPrefix(_))));
    let out = m.step(ProbeReply::PrefixBytes(b"hello\n".to_vec()));
    // the target was reached through a symlink: it gets a symlink hop and
    // a final iteration of its own
    assert!(matches!(out, StepOutcome::Probe(ProbeRequest::ReadLink(_))));
    let out = finish_plain_text(&mut m, b"hello\n");
    assert!(matches!(out, StepOutcome::Done));

    assert_eq!(m.chain.links.len(), 4);
    for i in 0..3 {
        assert!(matches!(m.chain.links[i].link_type, LinkType::Symlink));
        assert!(!m.chain.links[i].is_final);
    }
    assert!(m.chain.links[3].is_final);
}

#[test]
fn relative_link_target_resolves_against_parent() {
    let (mut m, out) = Resolution::start("/d/subdir/link");
    assert!(matches!(out, StepOutcome::Probe(ProbeRequest::ReadLink(_))));
    let out = m.step(ProbeReply::LinkTarget("../target".to_string()));
    match expect_probe(out) {
        ProbeRequest::CheckSymlink(p) => assert_eq!(p, "/d/target"),
        other => panic!("unexpected probe {:?}", other),
    }
    let out = m.step(ProbeReply::SymlinkStatus(false));
    assert!(matches!(out, StepOutcome::Probe(ProbeRequest::ReadPrefix(_))));
    let out = m.step(ProbeReply::PrefixBytes(b"data\n".to_vec()));
    assert!(matches!(out, StepOutcome::Probe(ProbeRequest::ReadLink(_))));
    let out = finish_plain_text(&mut m, b"data\n");
    assert!(matches!(out, StepOutcome::Done));

    assert_eq!(m.chain.links.len(), 2);
    assert_eq!(m.chain.links[0].target, "/d/target");
    assert!(m.chain.links[1].is_final);
}

#[test]
fn two_node_symlink_cycle_fails_with_cycle_detected() {
    let (mut m, out) = Resolution::start("/c/a");
    assert!(matches!(out, StepOutcome::Probe(ProbeRequest::ReadLink(_))));
    follow_symlink(&mut m, "/c/b");
    let out = m.step(ProbeReply::LinkTarget("/c/a".to_string()));
    assert!(matches!(out, StepOutcome::Probe(ProbeRequest::CheckSymlink(_))));
    let out = m.step(ProbeReply::SymlinkStatus(true));
    match out {
        StepOutcome::Failed(SymseekError::CycleDetected { path }) => {
            assert_eq!(path, "/c/a");
        }
        other => panic!("Expected CycleDetected error, got {:?}", other),
    }
}

#[test]
fn terminal_elf_binary_is_one_binary_hop() {
    let elf = [0x7f, b'E', b'L', b'F', 0x02, 0x01, 0x01, 0x00];
    let (mut m, out) = Resolution::start("/b/binary");
    assert!(matches!(out, StepOutcome::Probe(ProbeRequest::ReadLink(_))));
    let out = m.step(ProbeReply::NotSymlink);
    assert!(matches!(out, StepOutcome::Probe(ProbeRequest::CheckSymlink(_))));
    let out = m.step(ProbeReply::SymlinkStatus(false));
    assert!(matches!(out, StepOutcome::Probe(ProbeRequest::ReadPrefix(_))));
    let out = m.step(ProbeReply::PrefixBytes(elf.to_vec()));
    assert!(matches!(out, StepOutcome::Probe(ProbeRequest::FileSize(_))));
    let out = m.step(ProbeReply::SizeIs(8));
    assert!(matches!(out, StepOutcome::Probe(ProbeRequest::ReadAll(_))));
    // no store path in the content: no wrapper, terminal binary
    let out = m.step(ProbeReply::ContentBytes(elf.to_vec()));
    assert!(matches!(out, StepOutcome::Probe(ProbeRequest::CheckSymlink(_))));
    let out = m.step(ProbeReply::SymlinkStatus(false));
    assert!(matches!(out, StepOutcome::Probe(ProbeRequest::ReadPrefix(_))));
    let out = m.step(ProbeReply::PrefixBytes(elf.to_vec()));
    assert!(matches!(out, StepOutcome::Done));

    assert_eq!(m.chain.links.len(), 1);
    assert!(m.chain.links[0].is_final);
    assert!(matches!(
        m.chain.links[0].link_type,
        LinkType::Terminal(FileKind::Binary)
    ));
}

#[test]
fn marker_wrapper_script_redirects_to_quoted_store_path() {
    let script = b"#!/bin/bash\n# makeCWrapper '/nix/store/abc123-tool/bin/tool'\nexec x\n";
    let (mut m, out) = Resolution::start("/usr/local/bin/tool");
    assert!(matches!(out, StepOutcome::Probe(ProbeRequest::ReadLink(_))));
    let out = m.step(ProbeReply::NotSymlink);
    assert!(matches!(out, StepOutcome::Probe(ProbeRequest::CheckSymlink(_))));
    let out = m.step(ProbeReply::SymlinkStatus(false));
    assert!(matches!(out, StepOutcome::Probe(ProbeRequest::ReadPrefix(_))));
    let out = m.step(ProbeReply::PrefixBytes(script.to_vec()));
    assert!(matches!(out, StepOutcome::Probe(ProbeRequest::FileSize(_))));
    let out = m.step(ProbeReply::SizeIs(script.len() as u64));
    assert!(matches!(out, StepOutcome::Probe(ProbeRequest::ReadAll(_))));
    let out = m.step(ProbeReply::ContentBytes(script.to_vec()));
    // the marker heuristic wins: traversal continues at the quoted path
    match expect_probe(out) {
        ProbeRequest::ReadLink(p) => assert_eq!(p, "/nix/store/abc123-tool/bin/tool"),
        other => panic!("unexpected probe {:?}", other),
    }
    assert_eq!(m.chain.links.len(), 1);
    assert_eq!(m.chain.links[0].target, "/usr/local/bin/tool");
    assert!(!m.chain.links[0].is_final);
    assert!(matches!(
        m.chain.links[0].link_type,
        LinkType::Wrapper(WrapperKind::Text(ScriptType::Shell))
    ));

    let out = finish_plain_text(&mut m, b"real tool\n");
    assert!(matches!(out, StepOutcome::Done));
    assert_eq!(m.chain.links.len(), 2);
    assert_eq!(m.chain.links[1].target, "/nix/store/abc123-tool/bin/tool");
    assert!(m.chain.links[1].is_final);
}

fn elf_with_embedded_store_path() -> Vec<u8> {
    let mut content = vec![0x7f, b'E', b'L', b'F', 0xff, 0xff];
    content.extend_from_slice(b"/nix/store/abc1-pkg/bin/mytool\x00");
    content
}

#[test]
fn elf_with_existing_name_matching_store_path_is_a_binary_wrapper() {
    let content = elf_with_embedded_store_path();
    let (mut m, out) = Resolution::start("/usr/bin/mytool");
    assert!(matches!(out, StepOutcome::Probe(ProbeRequest::ReadLink(_))));
    let out = m.step(ProbeReply::NotSymlink);
    assert!(matches!(out, StepOutcome::Probe(ProbeRequest::CheckSymlink(_))));
    let out = m.step(ProbeReply::SymlinkStatus(false));
    assert!(matches!(out, StepOutcome::Probe(ProbeRequest::ReadPrefix(_))));
    let out = m.step(ProbeReply::PrefixBytes(content.clone()));
    assert!(matches!(out, StepOutcome::Probe(ProbeRequest::FileSize(_))));
    let out = m.step(ProbeReply::SizeIs(content.len() as u64));
    assert!(matches!(out, StepOutcome::Probe(ProbeRequest::ReadAll(_))));
    let out = m.step(ProbeReply::ContentBytes(content));
    // the name-matching heuristic asks whether its candidate exists
    match expect_probe(out) {
        ProbeRequest::CheckExists(p) => assert_eq!(p, "/nix/store/abc1-pkg/bin/mytool"),
        other => panic!("unexpected probe {:?}", other),
    }
    let out = m.step(ProbeReply::ExistsStatus(true));
    match expect_probe(out) {
        ProbeRequest::ReadLink(p) => assert_eq!(p, "/nix/store/abc1-pkg/bin/mytool"),
        other => panic!("unexpected probe {:?}", other),
    }
    assert_eq!(m.chain.links.len(), 1);
    assert_eq!(m.chain.links[0].target, "/usr/bin/mytool");
    assert!(matches!(
        m.chain.links[0].link_type,
        LinkType::Wrapper(WrapperKind::Binary)
    ));
}

#[test]
fn elf_whose_store_path_does_not_exist_is_terminal() {
    let content = elf_with_embedded_store_path();
    let (mut m, out) = Resolution::start("/usr/bin/mytool");
    assert!(matches!(out, StepOutcome::Probe(ProbeRequest::ReadLink(_))));
    let out = m.step(ProbeReply::NotSymlink);
    let _ = out;
    let out = m.step(ProbeReply::SymlinkStatus(false));
    let _ = out;
    let out = m.step(ProbeReply::PrefixBytes(content.clone()));
    let _ = out;
    let out = m.step(ProbeReply::SizeIs(content.len() as u64));
    let _ = out;
    let out = m.step(ProbeReply::ContentBytes(content.clone()));
    assert!(matches!(out, StepOutcome::Probe(ProbeRequest::CheckExists(_))));
    let out = m.step(ProbeReply::ExistsStatus(false));
    // no candidate left: the file is terminal
    assert!(matches!(out, StepOutcome::Probe(ProbeRequest::CheckSymlink(_))));
    let out = m.step(ProbeReply::SymlinkStatus(false));
    assert!(matches!(out, StepOutcome::Probe(ProbeRequest::ReadPrefix(_))));
    let out = m.step(ProbeReply::PrefixBytes(content));
    assert!(matches!(out, StepOutcome::Done));

    assert_eq!(m.chain.links.len(), 1);
    assert!(m.chain.links[0].is_final);
    assert!(matches!(
        m.chain.links[0].link_type,
        LinkType::Terminal(FileKind::Binary)
    ));
}

#[test]
fn oversized_file_skips_wrapper_detection() {
    let (mut m, _) = Resolution::start("/big/script");
    let _ = m.step(ProbeReply::NotSymlink);
    let _ = m.step(ProbeReply::SymlinkStatus(false));
    let out = m.step(ProbeReply::PrefixBytes(b"#!/bin/sh\n".to_vec()));
    assert!(matches!(out, StepOutcome::Probe(ProbeRequest::FileSize(_))));
    let out = m.step(ProbeReply::SizeIs(1048577));
    // above the ceiling: no content read, straight to the terminal round
    assert!(matches!(out, StepOutcome::Probe(ProbeRequest::CheckSymlink(_))));
}

#[test]
fn link_read_error_fails_with_symlink_resolution() {
    let (mut m, _) = Resolution::start("/p/x");
    let out = m.step(ProbeReply::LinkReadError("permission denied".to_string()));
    match out {
        StepOutcome::Failed(SymseekError::SymlinkResolution { path, reason }) => {
            assert_eq!(path, "/p/x");
            assert_eq!(reason, "permission denied");
        }
        other => panic!("Expected SymlinkResolution error, got {:?}", other),
    }
}

#[test]
fn metadata_failure_fails_with_io_context() {
    let (mut m, _) = Resolution::start("/p/x");
    let _ = m.step(ProbeReply::NotSymlink);
    let out = m.step(ProbeReply::IoFailure("no such file".to_string()));
    match out {
        StepOutcome::Failed(SymseekError::Io { context, message }) => {
            assert_eq!(context, "Failed to read metadata for /p/x");
            assert_eq!(message, "no such file");
        }
        other => panic!("Expected Io error, got {:?}", other),
    }
}
