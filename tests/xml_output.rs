use dircontext::model::{DirEntryInfo, FileInfo};
use dircontext::xml::generate_xml_output;

fn entry(name: &str, is_dir: bool, depth: usize) -> DirEntryInfo {
    DirEntryInfo::new(name.to_string(), is_dir, depth)
}

fn file(path: &str, content: &str) -> FileInfo {
    FileInfo::new(path.to_string(), content.to_string())
}

#[test]
fn xml_nests_directory_and_sibling_file() {
    let entries = vec![entry("dirA", true, 0), entry("f1.txt", false, 1), entry("f2.txt", false, 0)];
    let files = vec![file("dirA/f1.txt", "hello"), file("f2.txt", "world")];
    let out = generate_xml_output("/tmp/root", "root", &entries, &files);
    let expected = "<projectContext rootPath=\"/tmp/root\">\n    <tree>\n        <dir name=\"root\">\n            <dir name=\"dirA\">\n                <file name=\"f1.txt\"/>\n            </dir>\n            <file name=\"f2.txt\"/>\n        </dir>\n    </tree>\n    <fileContents>\n        <file path=\"dirA/f1.txt\">hello</file>\n        <file path=\"f2.txt\">world</file>\n    </fileContents>\n</projectContext>\n";
    assert_eq!(out, expected);
    assert_eq!(out.matches("<dir ").count(), 2);
    assert_eq!(out.matches("</dir>").count(), 2);
    assert_eq!(out.matches("</projectContext>").count(), 1);
}

#[test]
fn xml_closes_deep_directories_at_end() {
    let entries = vec![entry("a", true, 0), entry("b", true, 1), entry("c.txt", false, 2)];
    let out = generate_xml_output("/r", "r", &entries, &Vec::new());
    assert_eq!(out.matches("<dir ").count(), 3);
    assert_eq!(out.matches("</dir>").count(), 3);
    let a = out.find("<dir name=\"a\">").unwrap();
    let b = out.find("<dir name=\"b\">").unwrap();
    let c = out.find("<file name=\"c.txt\"/>").unwrap();
    assert!(a < b && b < c);
}

#[test]
fn xml_pops_several_levels_at_once() {
    let entries = vec![
        entry("a", true, 0),
        entry("b", true, 1),
        entry("deep.txt", false, 2),
        entry("top.txt", false, 0),
    ];
    let out = generate_xml_output("/r", "r", &entries, &Vec::new());
    let expected_tree = "        <dir name=\"r\">\n            <dir name=\"a\">\n                <dir name=\"b\">\n                    <file name=\"deep.txt\"/>\n                </dir>\n            </dir>\n            <file name=\"top.txt\"/>\n        </dir>\n";
    assert!(out.contains(expected_tree));
}

#[test]
fn xml_empty_contents_comment() {
    let out = generate_xml_output("/r", "r", &Vec::new(), &Vec::new());
    assert!(out.contains("<!-- No readable files found or all were excluded/ignored -->"));
    assert!(out.contains("<dir name=\"r\"/>"));
}

#[test]
fn xml_escapes_text_and_attributes() {
    let files = vec![file("q\"x.txt", "a < b")];
    let out = generate_xml_output("/r", "r", &Vec::new(), &files);
    assert!(out.contains("<file path=\"q&quot;x.txt\">a &lt; b</file>"));
}

#[test]
fn xml_escapes_ampersands() {
    let entries = vec![entry("a&b<c.txt", false, 0)];
    let files = vec![file("a&b<c.txt", "x < y & z")];
    let out = generate_xml_output("/tmp/r&d", "r&d", &entries, &files);
    assert!(out.contains("rootPath=\"/tmp/r&amp;d\""));
    assert!(out.contains("<dir name=\"r&amp;d\">"));
    assert!(out.contains("<file name=\"a&amp;b&lt;c.txt\"/>"));
    assert!(out.contains("<file path=\"a&amp;b&lt;c.txt\">x &lt; y &amp; z</file>"));
    assert!(!out.contains("& "));
}

#[test]
fn xml_keeps_content_white_space() {
    let files = vec![file("s.txt", "\n  indented\n\n")];
    let out = generate_xml_output("/r", "r", &Vec::new(), &files);
    assert!(out.contains("<file path=\"s.txt\">\n  indented\n\n</file>\n    </fileContents>"));
}
