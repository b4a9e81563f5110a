use symseek::{link_type_info, store_path_candidates, FileKind, LinkType, NixBinaryWrapperDetector, NixProgramNameDetector, NixStorePathDetector, ScriptType, WrapperDetector, WrapperKind};

#[test]
fn marker_detector_finds_quoted_store_path() {
    let d = NixBinaryWrapperDetector;
    let content = "#!/bin/bash\n# makeCWrapper '/nix/store/abc-tool/bin/tool'\n";
    let r = d.detect("/usr/bin/tool", content);
    assert_eq!(r.as_deref(), Some("/nix/store/abc-tool/bin/tool"));
}

#[test]
fn marker_detector_joins_line_continuations() {
    let d = NixBinaryWrapperDetector;
    let content = "makeCWrapper \\\n'/nix/store/abc-tool/bin/tool'\n";
    let r = d.detect("/usr/bin/tool", content);
    assert_eq!(r.as_deref(), Some("/nix/store/abc-tool/bin/tool"));
}

#[test]
fn marker_detector_joins_a_continuation_inside_the_marker_word() {
    let d = NixBinaryWrapperDetector;
    let content = "makeC\\\nWrapper '/nix/store/abc-tool/bin/tool'\n";
    let r = d.detect("/usr/bin/tool", content);
    assert_eq!(r.as_deref(), Some("/nix/store/abc-tool/bin/tool"));
}

#[test]
fn marker_detector_rejects_non_store_targets_and_itself() {
    let d = NixBinaryWrapperDetector;
    assert!(d
        .detect("/usr/bin/tool", "makeCWrapper '/usr/lib/other'\n")
        .is_none());
    assert!(d
        .detect(
            "/nix/store/abc-tool/bin/tool",
            "makeCWrapper '/nix/store/abc-tool/bin/tool'\n"
        )
        .is_none());
    assert!(d.detect("/usr/bin/tool", "no marker here\n").is_none());
}

#[test]
fn name_detector_keeps_matching_candidates_in_order() {
    let content = "a /nix/store/one1-pkg/bin/tool b /nix/store/two2-pkg/bin/other \
                   c /nix/store/three3-pkg/bin/tool\"";
    let cands = store_path_candidates("/usr/bin/tool", content);
    assert_eq!(
        cands,
        vec![
            "/nix/store/one1-pkg/bin/tool".to_string(),
            "/nix/store/three3-pkg/bin/tool".to_string(),
        ]
    );
}

#[test]
fn name_detector_strips_trailing_quotes_and_dollars() {
    let cands = store_path_candidates("/usr/bin/tool", "x /nix/store/aa1-p/bin/tool'$\" y");
    assert_eq!(cands, vec!["/nix/store/aa1-p/bin/tool".to_string()]);
}

#[test]
fn name_detector_skips_the_probed_path_itself() {
    let own = "/nix/store/aa1-p/bin/tool";
    let cands = store_path_candidates(own, "ref: /nix/store/aa1-p/bin/tool\n");
    assert!(cands.is_empty());
}

#[test]
fn detectors_report_their_names() {
    assert_eq!(WrapperDetector::name(&NixBinaryWrapperDetector), "NixBinaryWrapperDetector");
    assert_eq!(WrapperDetector::name(&NixStorePathDetector), "NixStorePathDetector");
    assert_eq!(WrapperDetector::name(&NixProgramNameDetector), "NixProgramNameDetector");
}

#[test]
fn program_name_detector_matches_store_detector() {
    let content = "see /nix/store/zz9-q/bin/app here";
    let a = NixStorePathDetector.candidates("/usr/bin/app", content);
    let b = NixProgramNameDetector.candidates("/usr/bin/app", content);
    assert_eq!(a, b);
    assert_eq!(a, vec!["/nix/store/zz9-q/bin/app".to_string()]);
}

#[test]
fn tree_labels_follow_the_link_type() {
    let (ind, label) = link_type_info(&LinkType::Symlink);
    assert_eq!(ind, "");
    assert_eq!(label, "");
    let (_, label) = link_type_info(&LinkType::Wrapper(WrapperKind::Binary));
    assert_eq!(label, " [binary wrapper]");
    let (_, label) = link_type_info(&LinkType::Wrapper(WrapperKind::Text(ScriptType::Shell)));
    assert_eq!(label, " [sh wrapper]");
    let (_, label) = link_type_info(&LinkType::Terminal(FileKind::Text));
    assert_eq!(label, " [text]");
    let (_, label) = link_type_info(&LinkType::Terminal(FileKind::Binary));
    assert_eq!(label, " [binary]");
}
