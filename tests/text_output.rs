use dircontext::model::{DirEntryInfo, FileInfo};
use dircontext::text::generate_text_output;

fn entry(name: &str, is_dir: bool, depth: usize) -> DirEntryInfo {
    DirEntryInfo::new(name.to_string(), is_dir, depth)
}

fn file(path: &str, content: &str) -> FileInfo {
    FileInfo::new(path.to_string(), content.to_string())
}

const SEP: &str = "========================================";

#[test]
fn text_tree_and_sections() {
    let entries = vec![entry("src", true, 0), entry("main.rs", false, 1), entry("README.md", false, 0)];
    let files = vec![file("src/main.rs", "  fn main() {}\n"), file("README.md", "# hi\n\n")];
    let out = generate_text_output("proj", &entries, &files);
    let expected = format!(
        "--- Directory Tree ---\nproj/\n  src/\n    main.rs\n  README.md\n\n--- File Contents ---\n\
         {SEP}\nFile: src/main.rs\n{SEP}\nfn main() {{}}\n\n\
         {SEP}\nFile: README.md\n{SEP}\n# hi\n\n"
    );
    assert_eq!(out, expected);
}

#[test]
fn text_no_files_placeholder() {
    let entries = vec![entry("blob.bin", false, 0)];
    let out = generate_text_output("root", &entries, &Vec::new());
    assert_eq!(
        out,
        "--- Directory Tree ---\nroot/\n  blob.bin\n\n--- File Contents ---\n\
         (No readable files found or all were excluded/ignored)\n"
    );
}

#[test]
fn text_empty_tree() {
    let out = generate_text_output("empty", &Vec::new(), &Vec::new());
    assert_eq!(
        out,
        "--- Directory Tree ---\nempty/\n\n--- File Contents ---\n\
         (No readable files found or all were excluded/ignored)\n"
    );
}

#[test]
fn text_indent_grows_two_spaces_per_level() {
    let entries = vec![entry("a", true, 0), entry("b", true, 1), entry("c.txt", false, 2)];
    let out = generate_text_output("r", &entries, &Vec::new());
    assert!(out.contains("\n  a/\n    b/\n      c.txt\n"));
}

#[test]
fn text_content_is_trimmed() {
    let files = vec![file("x.txt", "\n\t  body line  \n\n")];
    let out = generate_text_output("r", &Vec::new(), &files);
    assert!(out.ends_with(&format!("{SEP}\nFile: x.txt\n{SEP}\nbody line\n\n")));
}

#[test]
fn text_output_repeatable() {
    let make = || {
        let entries = vec![entry("d", true, 0), entry("f.txt", false, 1)];
        let files = vec![file("d/f.txt", "same\n")];
        generate_text_output("root", &entries, &files)
    };
    let first = make();
    let second = make();
    assert_eq!(first, second);
    let header = format!("{SEP}\nFile: d/f.txt\n{SEP}\n");
    assert!(first.contains(&header));
    assert!(second.contains(&header));
}

#[test]
fn text_trims_unicode_white_space() {
    let files = vec![file("u.txt", "\u{3000}\u{a0} mid dle \u{2028}\r\n")];
    let out = generate_text_output("r", &Vec::new(), &files);
    assert!(out.ends_with(&format!("{SEP}\nFile: u.txt\n{SEP}\nmid dle\n\n")));
}
