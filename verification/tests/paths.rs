use rust_doc_tool::analyze::to_relative_id;
use rust_doc_tool::graph::AnalyzerError;
use rust_doc_tool::paths::{is_mod_file, is_rust_source};

#[test]
fn relative_id_strips_the_root() {
    assert_eq!(to_relative_id("src/a/b.rs", "src").unwrap(), "a/b.rs");
    assert_eq!(to_relative_id("src/lib.rs", "src").unwrap(), "lib.rs");
    assert_eq!(to_relative_id("/home/me/proj/src/x.rs", "/home/me/proj/src").unwrap(), "x.rs");
}

#[test]
fn relative_id_handles_trailing_slash_and_empty_base() {
    assert_eq!(to_relative_id("src/a.rs", "src/").unwrap(), "a.rs");
    assert_eq!(to_relative_id("a.rs", "").unwrap(), "a.rs");
    assert_eq!(to_relative_id("src", "src").unwrap(), "");
}

#[test]
fn relative_id_requires_a_component_boundary() {
    match to_relative_id("src2/a.rs", "src").unwrap_err() {
        AnalyzerError::PathStripError { prefix, path } => {
            assert_eq!(prefix, "src");
            assert_eq!(path, "src2/a.rs");
        }
        other => panic!("unexpected error: {:?}", other),
    }
    assert!(to_relative_id("other/a.rs", "src").is_err());
}

#[test]
fn mod_file_detection() {
    assert!(is_mod_file("mod.rs"));
    assert!(is_mod_file("a/mod.rs"));
    assert!(is_mod_file("a/b/mod.rs"));
    assert!(!is_mod_file("amod.rs"));
    assert!(!is_mod_file("a/b.rs"));
    assert!(!is_mod_file("mod.rs.bak"));
    assert!(!is_mod_file(""));
}

#[test]
fn rust_source_detection() {
    assert!(is_rust_source("a.rs"));
    assert!(is_rust_source("dir/x.rs"));
    assert!(is_rust_source("a.b.rs"));
    assert!(!is_rust_source(".rs"));
    assert!(!is_rust_source("dir/.rs"));
    assert!(!is_rust_source("a.txt"));
    assert!(!is_rust_source("rs"));
}
