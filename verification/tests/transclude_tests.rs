use linutil_core::transclude::{
    build_catalog, flatten_script, has_shell_ext, is_candidate, join_path, parent_of,
    starts_with_shebang, BuildError, ScriptFile,
};

fn sf(path: &str, content: &str) -> ScriptFile {
    ScriptFile { path: path.to_string(), content: content.to_string() }
}

#[test]
fn shell_extension_rule() {
    assert!(has_shell_ext("run.sh"));
    assert!(has_shell_ext("tool"));
    assert!(has_shell_ext("dir.d/tool"));
    assert!(has_shell_ext(".hidden"));
    assert!(!has_shell_ext("notes.txt"));
    assert!(!has_shell_ext("odd."));
    assert!(!has_shell_ext("archive.tar.gz"));
    assert!(has_shell_ext("a/b/c.sh"));
}

#[test]
fn shebang_rule() {
    assert!(starts_with_shebang("#!/bin/sh\necho hi"));
    assert!(starts_with_shebang("#!"));
    assert!(!starts_with_shebang("#"));
    assert!(!starts_with_shebang("echo hi"));
    assert!(!starts_with_shebang(""));
}

#[test]
fn candidate_needs_both() {
    assert!(is_candidate("run.sh", "#!/bin/sh"));
    assert!(is_candidate("run", "#!/bin/sh"));
    assert!(!is_candidate("run.txt", "#!/bin/sh"));
    assert!(!is_candidate("run.sh", "echo hi"));
}

#[test]
fn path_helpers() {
    assert_eq!(parent_of("scripts/run.sh"), "scripts");
    assert_eq!(parent_of("run.sh"), "");
    assert_eq!(parent_of("a/b/c.sh"), "a/b");
    assert_eq!(join_path("scripts", "lib/common.sh"), "scripts/lib/common.sh");
    assert_eq!(join_path("", "lib/common.sh"), "lib/common.sh");
}

#[test]
fn source_include_is_replaced_exactly() {
    let files = vec![
        sf("run.sh", "#!/bin/sh\nsource lib/common.sh\necho done"),
        sf("lib/common.sh", "X=1"),
    ];
    let out = flatten_script(&files, "", "#!/bin/sh\nsource lib/common.sh\necho done").unwrap();
    assert_eq!(out, "#!/bin/sh\nX=1\necho done");
}

#[test]
fn dot_include_is_replaced() {
    let files = vec![
        sf("scripts/run.sh", "#!/bin/sh\n. lib/common.sh"),
        sf("scripts/lib/common.sh", "X=1"),
    ];
    let out = flatten_script(&files, "scripts", "#!/bin/sh\n. lib/common.sh").unwrap();
    assert_eq!(out, "#!/bin/sh\nX=1");
}

#[test]
fn inlining_is_one_level_deep() {
    let files = vec![
        sf("run.sh", "#!/bin/sh\nsource a.sh"),
        sf("a.sh", "source b.sh"),
        sf("b.sh", "Z=9"),
    ];
    let out = flatten_script(&files, "", "#!/bin/sh\nsource a.sh").unwrap();
    // The included text keeps its own directive: it is not re-scanned.
    assert_eq!(out, "#!/bin/sh\nsource b.sh");
}

#[test]
fn missing_include_is_fatal() {
    let files = vec![sf("run.sh", "#!/bin/sh\nsource lib/none.sh")];
    let err = flatten_script(&files, "", "#!/bin/sh\nsource lib/none.sh").unwrap_err();
    let BuildError::MissingInclude(p) = err;
    assert_eq!(p, "lib/none.sh");
}

#[test]
fn missing_include_path_is_resolved_against_dir() {
    let files = vec![sf("scripts/run.sh", "#!/bin/sh\n. common.sh")];
    let err = build_catalog(&files).unwrap_err();
    let BuildError::MissingInclude(p) = err;
    assert_eq!(p, "scripts/common.sh");
}

#[test]
fn carriage_returns_before_newlines_are_dropped() {
    let files = vec![
        sf("run.sh", "#!/bin/sh\r\nsource lib.sh\r\n"),
        sf("lib.sh", "X=1"),
    ];
    let out = flatten_script(&files, "", "#!/bin/sh\r\nsource lib.sh\r\n").unwrap();
    assert_eq!(out, "#!/bin/sh\nX=1");
}

#[test]
fn catalog_outputs_start_with_shebang() {
    let files = vec![
        sf("a.sh", "#!/bin/sh\necho a"),
        sf("sub/b", "#!/usr/bin/env bash\n. lib.sh"),
        sf("sub/lib.sh", "Y=2"),
        sf("notes.txt", "#!/bin/sh\nnot a script"),
        sf("plain.sh", "no shebang here"),
    ];
    let out = build_catalog(&files).unwrap();
    assert_eq!(out.len(), 2);
    for f in &out {
        assert_eq!(&f.content.as_bytes()[..2], b"#!");
    }
}

#[test]
fn catalog_keeps_paths_and_order() {
    let files = vec![
        sf("z.sh", "#!/bin/sh\necho z"),
        sf("a/x.sh", "#!/bin/sh\necho x"),
        sf("skip.txt", "#!/bin/sh"),
    ];
    let out = build_catalog(&files).unwrap();
    assert_eq!(out.len(), 2);
    assert_eq!(out[0].path, "z.sh");
    assert_eq!(out[0].content, "#!/bin/sh\necho z");
    assert_eq!(out[1].path, "a/x.sh");
    assert_eq!(out[1].content, "#!/bin/sh\necho x");
}

#[test]
fn pipeline_is_deterministic() {
    let files = vec![
        sf("run.sh", "#!/bin/sh\nsource lib/common.sh\necho done"),
        sf("lib/common.sh", "X=1\nY=2"),
        sf("other", "#!/bin/bash\n. lib/common.sh"),
    ];
    let once = build_catalog(&files).unwrap();
    let twice = build_catalog(&files).unwrap();
    assert_eq!(once.len(), twice.len());
    for (a, b) in once.iter().zip(twice.iter()) {
        assert_eq!(a.path, b.path);
        assert_eq!(a.content, b.content);
    }
}

#[test]
fn non_candidate_library_can_still_be_included() {
    // lib/common.sh has no shebang: excluded from the catalog, but a
    // valid include target.
    let files = vec![
        sf("run.sh", "#!/bin/sh\nsource lib/common.sh"),
        sf("lib/common.sh", "X=1"),
    ];
    let out = build_catalog(&files).unwrap();
    assert_eq!(out.len(), 1);
    assert_eq!(out[0].content, "#!/bin/sh\nX=1");
}

#[test]
fn trailing_newline_is_not_restored() {
    let files = vec![sf("run.sh", "#!/bin/sh\necho hi\n")];
    let out = flatten_script(&files, "", "#!/bin/sh\necho hi\n").unwrap();
    assert_eq!(out, "#!/bin/sh\necho hi");
}

#[test]
fn empty_tree_builds_empty_catalog() {
    let files: Vec<ScriptFile> = Vec::new();
    let out = build_catalog(&files).unwrap();
    assert!(out.is_empty());
}
