use dircontext::model::FileInfo;
use dircontext::walk::{
    collect_file, exclude_rule, exclusion_overrides, record_entry, walker_max_depth, ReadOutcome,
    Severity,
};

#[test]
fn exclude_rule_prefixes_bang() {
    assert_eq!(exclude_rule("*.log"), "!*.log");
    assert_eq!(exclude_rule(""), "!");
}

#[test]
fn walker_depth_shifted_by_root() {
    assert_eq!(walker_max_depth(0), None);
    assert_eq!(walker_max_depth(1), Some(2));
    assert_eq!(walker_max_depth(5), Some(6));
    assert_eq!(walker_max_depth(usize::MAX), Some(usize::MAX));
}

#[test]
fn max_depth_one_keeps_only_top_level() {
    let a = record_entry(1, "a".to_string(), true, 1).unwrap();
    assert_eq!(a.name, "a");
    assert!(a.is_dir);
    assert_eq!(a.depth, 0);
    assert!(record_entry(2, "b".to_string(), true, 1).is_none());
    assert!(record_entry(3, "c.txt".to_string(), false, 1).is_none());
}

#[test]
fn root_is_never_an_entry() {
    assert!(record_entry(0, "root".to_string(), true, 0).is_none());
    let deep = record_entry(40, "x".to_string(), false, 0).unwrap();
    assert_eq!(deep.depth, 39);
}

#[test]
fn binary_file_skipped_with_info() {
    let mut files: Vec<FileInfo> = Vec::new();
    assert_eq!(collect_file(&mut files, "blob.bin".to_string(), ReadOutcome::NotText), Some(Severity::Info));
    assert!(files.is_empty());
    assert_eq!(collect_file(&mut files, "locked.txt".to_string(), ReadOutcome::Failed), Some(Severity::Warning));
    assert!(files.is_empty());
    assert_eq!(collect_file(&mut files, "a.txt".to_string(), ReadOutcome::Text("hi".to_string())), None);
    assert_eq!(files.len(), 1);
    assert_eq!(files[0].path, "a.txt");
    assert_eq!(files[0].content, "hi");
}

#[test]
fn invalid_patterns_reported_valid_kept() {
    let patterns = vec!["*.log".to_string(), "[abc".to_string(), "target/".to_string(), "{a".to_string()];
    let (builder, rejected) = exclusion_overrides("/tmp", &patterns);
    let indices: Vec<usize> = rejected.iter().map(|r| r.index).collect();
    assert_eq!(indices, vec![1, 3]);
    assert!(rejected.iter().all(|r| !r.reason.is_empty()));
    let ov = builder.build().unwrap();
    assert_eq!(ov.num_ignores(), 2);
}

#[test]
fn no_patterns_no_rejections() {
    let (builder, rejected) = exclusion_overrides("/tmp", &Vec::new());
    assert!(rejected.is_empty());
    assert!(builder.build().unwrap().is_empty());
}

#[test]
fn exclusion_override_ignores_match() {
    let (builder, rejected) = exclusion_overrides("/tmp/proj", &vec!["*.log".to_string()]);
    assert!(rejected.is_empty());
    let ov = builder.build().unwrap();
    assert!(ov.matched("/tmp/proj/out.log", false).is_ignore());
    assert!(!ov.matched("/tmp/proj/main.rs", false).is_ignore());
}
