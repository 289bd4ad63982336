use vstd::prelude::*;
use crate::model::{DirEntryInfo, FileInfo};
use xmlwriter::XmlWriter;

verus! {

/// One call made on an XML writer, as the document records it.
pub enum XmlOp {
    /// Opens an element with the given name.
    Start(Seq<char>),
    /// Adds an attribute (name, value) to the element just opened.
    Attr(Seq<char>, Seq<char>),
    /// Writes character data into the innermost open element.
    Text(Seq<char>),
    /// Writes a comment.
    Comment(Seq<char>),
    /// Turns keeping white space as written (no line breaks or indentation
    /// around text and closing tags) on or off.
    Preserve(bool),
    /// Closes the innermost open element, if any.
    End,
}

#[verifier::external_type_specification]
#[verifier::external_body]
pub struct ExXmlWriter(XmlWriter);

/// The calls made so far on a writer, in order.
pub uninterp spec fn xml_ops(w: XmlWriter) -> Seq<XmlOp>;

/// The text that a writer built with the default options (four-space
/// indentation, double quotes) returns once `ops` were made on it.
pub uninterp spec fn xml_document(ops: Seq<XmlOp>) -> Seq<char>;

/// How many elements are open after `ops`; a close with none open is ignored.
pub open spec fn open_count(ops: Seq<XmlOp>) -> nat
    decreases ops.len(),
{
    if ops.len() == 0 {
        0
    } else {
        let c = open_count(ops.drop_last());
        match ops.last() {
            XmlOp::Start(_) => c + 1,
            XmlOp::End => if c > 0 { (c - 1) as nat } else { 0 },
            _ => c,
        }
    }
}

/// An attribute may follow only the opening of an element or another attribute.
pub open spec fn accepts_attribute(ops: Seq<XmlOp>) -> bool {
    ops.len() > 0 && (ops.last() is Start || ops.last() is Attr)
}

/// Relies on xmlwriter::XmlWriter::new with Options::default(): a writer with nothing written.
#[verifier::external_body]
fn xml_new() -> (w: XmlWriter)
    ensures
        xml_ops(w) == Seq::<XmlOp>::empty(),
{
    XmlWriter::new(xmlwriter::Options::default())
}

/// Relies on xmlwriter::XmlWriter::start_element: opens an element.
#[verifier::external_body]
fn xml_start(w: &mut XmlWriter, name: &str)
    ensures
        xml_ops(*final(w)) == xml_ops(*old(w)).push(XmlOp::Start(name@)),
{
    w.start_element(name);
}

/// Relies on xmlwriter::XmlWriter::write_attribute, which panics unless an
/// element was just opened.
#[verifier::external_body]
fn xml_attr(w: &mut XmlWriter, name: &str, value: &str)
    requires
        accepts_attribute(xml_ops(*old(w))),
    ensures
        xml_ops(*final(w)) == xml_ops(*old(w)).push(XmlOp::Attr(name@, value@)),
{
    w.write_attribute(name, value);
}

/// Relies on xmlwriter::XmlWriter::write_text, which panics when no element is open.
#[verifier::external_body]
fn xml_text(w: &mut XmlWriter, text: &str)
    requires
        open_count(xml_ops(*old(w))) > 0,
    ensures
        xml_ops(*final(w)) == xml_ops(*old(w)).push(XmlOp::Text(text@)),
{
    w.write_text(text);
}

/// Relies on xmlwriter::XmlWriter::write_comment: writes a comment.
#[verifier::external_body]
fn xml_comment(w: &mut XmlWriter, text: &str)
    ensures
        xml_ops(*final(w)) == xml_ops(*old(w)).push(XmlOp::Comment(text@)),
{
    w.write_comment(text);
}

/// Relies on xmlwriter::XmlWriter::set_preserve_whitespaces.
#[verifier::external_body]
fn xml_preserve(w: &mut XmlWriter, preserve: bool)
    ensures
        xml_ops(*final(w)) == xml_ops(*old(w)).push(XmlOp::Preserve(preserve)),
{
    w.set_preserve_whitespaces(preserve);
}

/// `s` with every `from` replaced by `to`.
pub open spec fn replace_all(s: Seq<char>, from: char, to: Seq<char>) -> Seq<char>
    decreases s.len(),
{
    if s.len() == 0 {
        Seq::empty()
    } else {
        replace_all(s.drop_last(), from, to) + (if s.last() == from {
            to
        } else {
            seq![s.last()]
        })
    }
}

/// Relies on str::replace with a `char` pattern: every occurrence of `from`
/// is replaced by `to`.
#[verifier::external_body]
fn replace_char(s: &str, from: char, to: &str) -> (r: String)
    ensures
        r@ == replace_all(s@, from, to@),
{
    s.replace(from, to)
}

/// Character data as handed to the writer: `&` escaped here, while the
/// writer itself escapes `<`.
pub open spec fn escape_text(s: Seq<char>) -> Seq<char> {
    replace_all(s, '&', "&amp;"@)
}

/// An attribute value as handed to the writer: `&` and `<` escaped here,
/// while the writer itself escapes `"`.
pub open spec fn escape_attr(s: Seq<char>) -> Seq<char> {
    replace_all(replace_all(s, '&', "&amp;"@), '<', "&lt;"@)
}

/// Escapes what the writer leaves raw in character data.
pub fn xml_escape_text(s: &str) -> (r: String)
    ensures
        r@ == escape_text(s@),
{
    replace_char(s, '&', "&amp;")
}

/// Escapes what the writer leaves raw in an attribute value.
pub fn xml_escape_attr(s: &str) -> (r: String)
    ensures
        r@ == escape_attr(s@),
{
    let a = replace_char(s, '&', "&amp;");
    replace_char(a.as_str(), '<', "&lt;")
}

/// Relies on xmlwriter::XmlWriter::end_element: closes the innermost open element.
#[verifier::external_body]
fn xml_end(w: &mut XmlWriter)
    ensures
        xml_ops(*final(w)) == xml_ops(*old(w)).push(XmlOp::End),
{
    w.end_element();
}

/// Relies on xmlwriter::XmlWriter::end_document: closes what is open and
/// returns the document text.
#[verifier::external_body]
fn xml_finish(w: XmlWriter) -> (r: String)
    ensures
        r@ == xml_document(xml_ops(w)),
{
    w.end_document()
}

proof fn lemma_open_count_push(ops: Seq<XmlOp>, op: XmlOp)
    ensures
        open_count(ops.push(op)) == match op {
            XmlOp::Start(_) => open_count(ops) + 1,
            XmlOp::End => if open_count(ops) > 0 { (open_count(ops) - 1) as nat } else { 0 },
            _ => open_count(ops),
        },
{
    assert(ops.push(op).drop_last() =~= ops);
}

/// `n` closing calls.
pub open spec fn close_ops(n: nat) -> Seq<XmlOp> {
    Seq::new(n, |i: int| XmlOp::End)
}

/// How many directories on top of the stack of open depths must close before
/// an entry whose element depth is `d`: those whose depth is `d` or more.
pub open spec fn pop_count(stack: Seq<usize>, d: usize) -> nat
    decreases stack.len(),
{
    if stack.len() > 0 && stack.last() >= d {
        1 + pop_count(stack.drop_last(), d)
    } else {
        0
    }
}

/// The element depth of an entry: the root directory's element is at depth 0.
pub open spec fn element_depth(e: DirEntryInfo) -> usize {
    (e.depth + 1) as usize
}

/// The calls for one entry: a directory stays open, a file is a closed leaf.
pub open spec fn entry_ops(e: DirEntryInfo) -> Seq<XmlOp> {
    if e.is_dir {
        seq![XmlOp::Start("dir"@), XmlOp::Attr("name"@, escape_attr(e.name@))]
    } else {
        seq![XmlOp::Start("file"@), XmlOp::Attr("name"@, escape_attr(e.name@)), XmlOp::End]
    }
}

/// The stack of open directory depths once `e` has been written.
pub open spec fn next_stack(stack: Seq<usize>, e: DirEntryInfo) -> Seq<usize> {
    let kept = stack.take(stack.len() - pop_count(stack, element_depth(e)));
    if e.is_dir {
        kept.push(element_depth(e))
    } else {
        kept
    }
}

/// The calls that write `entries` when the directories whose depths are on
/// `stack` are open, and that close all of them but the bottom one at the end.
pub open spec fn tree_ops_from(stack: Seq<usize>, entries: Seq<DirEntryInfo>) -> Seq<XmlOp>
    decreases entries.len(),
{
    if entries.len() == 0 {
        close_ops(if stack.len() > 0 { (stack.len() - 1) as nat } else { 0 })
    } else {
        let e = entries[0];
        close_ops(pop_count(stack, element_depth(e))) + entry_ops(e) + tree_ops_from(
            next_stack(stack, e),
            entries.drop_first(),
        )
    }
}

/// The calls that write the body of the tree element's root directory.
pub open spec fn tree_ops(entries: Seq<DirEntryInfo>) -> Seq<XmlOp> {
    tree_ops_from(seq![0usize], entries)
}

/// The calls for one loaded file: its content is written as it is, with no
/// white space added around it.
pub open spec fn file_ops(f: FileInfo) -> Seq<XmlOp> {
    seq![
        XmlOp::Start("file"@),
        XmlOp::Attr("path"@, escape_attr(f.path@)),
        XmlOp::Preserve(true),
        XmlOp::Text(escape_text(f.content@)),
        XmlOp::End,
        XmlOp::Preserve(false),
    ]
}

/// The calls for a sequence of loaded files, in order.
pub open spec fn files_ops(files: Seq<FileInfo>) -> Seq<XmlOp>
    decreases files.len(),
{
    if files.len() == 0 {
        Seq::empty()
    } else {
        files_ops(files.drop_last()) + file_ops(files.last())
    }
}

/// The comment that stands in for an empty file-contents section.
pub open spec fn no_files_comment() -> Seq<char> {
    " No readable files found or all were excluded/ignored "@
}

/// The calls that make the whole XML document.
pub open spec fn project_ops(
    root_path: Seq<char>,
    root_name: Seq<char>,
    entries: Seq<DirEntryInfo>,
    files: Seq<FileInfo>,
) -> Seq<XmlOp> {
    seq![
        XmlOp::Start("projectContext"@),
        XmlOp::Attr("rootPath"@, escape_attr(root_path)),
        XmlOp::Start("tree"@),
        XmlOp::Start("dir"@),
        XmlOp::Attr("name"@, escape_attr(root_name)),
    ] + tree_ops(entries) + seq![XmlOp::End, XmlOp::End, XmlOp::Start("fileContents"@)]
        + (if files.len() == 0 {
        seq![XmlOp::Comment(no_files_comment())]
    } else {
        files_ops(files)
    }) + seq![XmlOp::End, XmlOp::End]
}

/// No entry is so deep that its element depth overflows.
pub open spec fn depths_bounded(entries: Seq<DirEntryInfo>) -> bool {
    forall|i: int| 0 <= i < entries.len() ==> #[trigger] entries[i].depth < usize::MAX
}

/// A stack of open depths as the writer keeps it: the root at depth 0 at the
/// bottom, depths strictly increasing upwards.
pub open spec fn stack_ok(stack: Seq<usize>) -> bool {
    &&& stack.len() > 0
    &&& stack[0] == 0
    &&& forall|i: int, j: int| 0 <= i < j < stack.len() ==> stack[i] < stack[j]
}

proof fn lemma_pop_count_bound(stack: Seq<usize>, d: usize)
    requires
        stack_ok(stack),
        d > 0,
    ensures
        pop_count(stack, d) < stack.len(),
        stack_ok(stack.take(stack.len() - pop_count(stack, d))),
    decreases stack.len(),
{
    if stack.len() > 0 && stack.last() >= d {
        assert(stack.len() > 1);
        let s = stack.drop_last();
        assert(stack_ok(s));
        lemma_pop_count_bound(s, d);
        assert(stack.take(stack.len() - pop_count(stack, d)) =~= s.take(s.len() - pop_count(s, d)));
    } else {
        assert(stack.take(stack.len() as int) =~= stack);
    }
}

/// Writes the project context as an XML document: the root path, the
/// directory tree nested from the flat entry sequence with a stack of open
/// directory depths, and one element per loaded file with its raw text.
pub fn generate_xml_output(
    root_path: &str,
    root_name: &str,
    dir_entries: &Vec<DirEntryInfo>,
    file_contents: &Vec<FileInfo>,
) -> (r: String)
    requires
        depths_bounded(dir_entries@),
    ensures
        r@ == xml_document(project_ops(root_path@, root_name@, dir_entries@, file_contents@)),
{
    let ghost entries = dir_entries@;
    let ghost files = file_contents@;
    let mut xw = xml_new();
    xml_start(&mut xw, "projectContext");
    let root_path_attr = xml_escape_attr(root_path);
    xml_attr(&mut xw, "rootPath", root_path_attr.as_str());
    xml_start(&mut xw, "tree");
    xml_start(&mut xw, "dir");
    let root_name_attr = xml_escape_attr(root_name);
    xml_attr(&mut xw, "name", root_name_attr.as_str());
    let ghost head = xml_ops(xw);
    let mut stack: Vec<usize> = vec![0];
    assert(xml_ops(xw) + tree_ops_from(stack@, entries.skip(0)) =~= head + tree_ops(entries)) by {
        assert(entries.skip(0) =~= entries);
        assert(stack@ =~= seq![0usize]);
    }
    let mut i: usize = 0;
    while i < dir_entries.len()
        invariant
            0 <= i <= entries.len(),
            entries == dir_entries@,
            depths_bounded(entries),
            stack_ok(stack@),
            xml_ops(xw) + tree_ops_from(stack@, entries.skip(i as int)) == head + tree_ops(entries),
        decreases entries.len() - i,
    {
        let entry = &dir_entries[i];
        let d: usize = entry.depth + 1;
        let ghost e = entries[i as int];
        let ghost before = xml_ops(xw);
        let ghost orig = stack@;
        let ghost k = pop_count(orig, d);
        proof {
            lemma_pop_count_bound(orig, d);
            assert(entries.skip(i as int)[0] == e);
            assert(entries.skip(i as int).drop_first() =~= entries.skip(i + 1));
        }
        while stack[stack.len() - 1] >= d
            invariant
                stack_ok(stack@),
                stack@.len() <= orig.len(),
                stack@ == orig.take(stack@.len() as int),
                orig.len() - k <= stack@.len(),
                pop_count(stack@, d) == stack@.len() - (orig.len() - k),
                xml_ops(xw) == before + close_ops((orig.len() - stack@.len()) as nat),
                d > 0,
            decreases stack@.len(),
        {
            proof {
                lemma_pop_count_bound(stack@, d);
            }
            xml_end(&mut xw);
            stack.pop();
            proof {
                assert(stack@ =~= orig.take(stack@.len() as int));
                assert(before + close_ops((orig.len() - stack@.len()) as nat) =~= before
                    + close_ops((orig.len() - stack@.len() - 1) as nat).push(XmlOp::End));
            }
        }
        assert(stack@ =~= orig.take(orig.len() - k));
        let ghost kept = stack@;
        if entry.is_dir {
            let name_attr = xml_escape_attr(entry.name.as_str());
            xml_start(&mut xw, "dir");
            xml_attr(&mut xw, "name", name_attr.as_str());
            stack.push(d);
            proof {
                assert forall|a: int, b: int| 0 <= a < b < stack@.len() implies stack@[a] < stack@[b] by {
                    if b == stack@.len() - 1 && kept.len() > 0 {
                        assert(kept.last() < d);
                        assert(kept[a] <= kept.last());
                    }
                }
            }
        } else {
            let name_attr = xml_escape_attr(entry.name.as_str());
            xml_start(&mut xw, "file");
            xml_attr(&mut xw, "name", name_attr.as_str());
            xml_end(&mut xw);
        }
        proof {
            assert(stack@ == next_stack(orig, e));
            assert(xml_ops(xw) =~= before + close_ops(k) + entry_ops(e));
            assert(xml_ops(xw) + tree_ops_from(stack@, entries.skip(i + 1)) =~= before
                + tree_ops_from(orig, entries.skip(i as int)));
        }
        i = i + 1;
    }
    let ghost orig = stack@;
    let ghost before = xml_ops(xw);
    proof {
        assert(entries.skip(i as int).len() == 0);
    }
    while stack.len() > 1
        invariant
            1 <= stack@.len() <= orig.len(),
            xml_ops(xw) == before + close_ops((orig.len() - stack@.len()) as nat),
        decreases stack@.len(),
    {
        xml_end(&mut xw);
        stack.pop();
        proof {
            assert(before + close_ops((orig.len() - stack@.len()) as nat) =~= before
                + close_ops((orig.len() - stack@.len() - 1) as nat).push(XmlOp::End));
        }
    }
    assert(xml_ops(xw) =~= head + tree_ops(entries));
    xml_end(&mut xw);
    xml_end(&mut xw);
    xml_start(&mut xw, "fileContents");
    let ghost mid = xml_ops(xw);
    if file_contents.len() == 0 {
        xml_comment(&mut xw, " No readable files found or all were excluded/ignored ");
    } else {
        let mut j: usize = 0;
        assert(files.take(0) =~= Seq::<FileInfo>::empty());
        while j < file_contents.len()
            invariant
                0 <= j <= files.len(),
                files == file_contents@,
                xml_ops(xw) == mid + files_ops(files.take(j as int)),
            decreases files.len() - j,
        {
            let f = &file_contents[j];
            let path_attr = xml_escape_attr(f.path.as_str());
            let text = xml_escape_text(f.content.as_str());
            let ghost o0 = xml_ops(xw);
            xml_start(&mut xw, "file");
            let ghost o1 = xml_ops(xw);
            xml_attr(&mut xw, "path", path_attr.as_str());
            let ghost o2 = xml_ops(xw);
            xml_preserve(&mut xw, true);
            proof {
                lemma_open_count_push(o0, XmlOp::Start("file"@));
                lemma_open_count_push(o1, XmlOp::Attr("path"@, path_attr@));
                lemma_open_count_push(o2, XmlOp::Preserve(true));
            }
            xml_text(&mut xw, text.as_str());
            xml_end(&mut xw);
            xml_preserve(&mut xw, false);
            proof {
                assert(files.take(j + 1).drop_last() =~= files.take(j as int));
            }
            j = j + 1;
        }
        assert(files.take(j as int) =~= files);
    }
    xml_end(&mut xw);
    xml_end(&mut xw);
    assert(xml_ops(xw) =~= project_ops(root_path@, root_name@, entries, files));
    xml_finish(xw)
}


/// How far a call moves the nesting depth.
pub open spec fn op_delta(op: XmlOp) -> int {
    match op {
        XmlOp::Start(_) => 1,
        XmlOp::End => -1,
        _ => 0,
    }
}

/// Opened minus closed elements over `ops`.
pub open spec fn nesting(ops: Seq<XmlOp>) -> int
    decreases ops.len(),
{
    if ops.len() == 0 {
        0
    } else {
        nesting(ops.drop_last()) + op_delta(ops.last())
    }
}

/// Along `ops`, the nesting never drops below `lo`.
pub open spec fn never_below(ops: Seq<XmlOp>, lo: int) -> bool {
    forall|i: int| 0 <= i <= ops.len() ==> #[trigger] nesting(ops.take(i)) >= lo
}

proof fn lemma_nesting_concat(a: Seq<XmlOp>, b: Seq<XmlOp>)
    ensures
        nesting(a + b) == nesting(a) + nesting(b),
    decreases b.len(),
{
    if b.len() == 0 {
        assert(a + b =~= a);
    } else {
        assert((a + b).drop_last() =~= a + b.drop_last());
        lemma_nesting_concat(a, b.drop_last());
    }
}

proof fn lemma_never_below_concat(a: Seq<XmlOp>, b: Seq<XmlOp>, lo: int)
    requires
        never_below(a, lo),
        never_below(b, lo - nesting(a)),
    ensures
        never_below(a + b, lo),
        nesting(a + b) == nesting(a) + nesting(b),
{
    lemma_nesting_concat(a, b);
    assert forall|i: int| 0 <= i <= (a + b).len() implies #[trigger] nesting((a + b).take(i)) >= lo by {
        if i <= a.len() {
            assert((a + b).take(i) =~= a.take(i));
        } else {
            assert((a + b).take(i) =~= a + b.take(i - a.len()));
            lemma_nesting_concat(a, b.take(i - a.len()));
            assert(nesting(b.take(i - a.len())) >= lo - nesting(a));
        }
    }
}

proof fn lemma_close_ops_depth(n: nat)
    ensures
        nesting(close_ops(n)) == -n,
    decreases n,
{
    if n > 0 {
        lemma_close_ops_depth((n - 1) as nat);
        assert(close_ops(n).drop_last() =~= close_ops((n - 1) as nat));
    }
}

proof fn lemma_close_ops_nesting(n: nat)
    ensures
        nesting(close_ops(n)) == -n,
        never_below(close_ops(n), -n),
{
    lemma_close_ops_depth(n);
    assert forall|i: int| 0 <= i <= close_ops(n).len() implies #[trigger] nesting(close_ops(n).take(i)) >= -n by {
        assert(close_ops(n).take(i) =~= close_ops(i as nat));
        lemma_close_ops_depth(i as nat);
    }
}

proof fn lemma_small_nesting(ops: Seq<XmlOp>)
    requires
        ops.len() <= 6,
    ensures
        forall|i: int| 0 <= i <= ops.len() ==> #[trigger] nesting(ops.take(i)) == (if i == 0 {
            0
        } else {
            nesting(ops.take(i - 1)) + op_delta(ops[i - 1])
        }),
{
    assert forall|i: int| 0 <= i <= ops.len() implies #[trigger] nesting(ops.take(i)) == (if i == 0 {
        0
    } else {
        nesting(ops.take(i - 1)) + op_delta(ops[i - 1])
    }) by {
        if i > 0 {
            assert(ops.take(i).drop_last() =~= ops.take(i - 1));
        }
    }
}

proof fn lemma_entry_ops_nesting(e: DirEntryInfo)
    ensures
        nesting(entry_ops(e)) == (if e.is_dir { 1int } else { 0 }),
        never_below(entry_ops(e), 0),
{
    let ops = entry_ops(e);
    lemma_small_nesting(ops);
    assert(ops.take(ops.len() as int) =~= ops);
    assert(nesting(ops.take(0)) == 0);
    assert(nesting(ops.take(1)) == 1);
    assert(nesting(ops.take(2)) == 1);
    if !e.is_dir {
        assert(nesting(ops.take(3)) == 0);
    }
}

proof fn lemma_file_ops_nesting(f: FileInfo)
    ensures
        nesting(file_ops(f)) == 0,
        never_below(file_ops(f), 0),
{
    let ops = file_ops(f);
    lemma_small_nesting(ops);
    assert(ops.take(ops.len() as int) =~= ops);
    assert(nesting(ops.take(0)) == 0);
    assert(nesting(ops.take(1)) == 1);
    assert(nesting(ops.take(2)) == 1);
    assert(nesting(ops.take(3)) == 1);
    assert(nesting(ops.take(4)) == 1);
    assert(nesting(ops.take(5)) == 0);
    assert(nesting(ops.take(6)) == 0);
}

proof fn lemma_files_ops_nesting(files: Seq<FileInfo>)
    ensures
        nesting(files_ops(files)) == 0,
        never_below(files_ops(files), 0),
    decreases files.len(),
{
    if files.len() == 0 {
        assert(files_ops(files).take(0) =~= files_ops(files));
    } else {
        lemma_files_ops_nesting(files.drop_last());
        lemma_file_ops_nesting(files.last());
        lemma_never_below_concat(files_ops(files.drop_last()), file_ops(files.last()), 0);
    }
}

proof fn lemma_pop_keeps_bottom(stack: Seq<usize>, d: usize)
    requires
        stack.len() > 0,
        stack[0] == 0,
        d > 0,
    ensures
        pop_count(stack, d) < stack.len(),
    decreases stack.len(),
{
    if stack.len() > 0 && stack.last() >= d {
        lemma_pop_keeps_bottom(stack.drop_last(), d);
    }
}

proof fn lemma_tree_ops_from_nesting(stack: Seq<usize>, entries: Seq<DirEntryInfo>)
    requires
        stack.len() > 0,
        stack[0] == 0,
        depths_bounded(entries),
    ensures
        nesting(tree_ops_from(stack, entries)) == 1 - stack.len(),
        never_below(tree_ops_from(stack, entries), 1 - stack.len()),
    decreases entries.len(),
{
    if entries.len() == 0 {
        lemma_close_ops_nesting((stack.len() - 1) as nat);
    } else {
        let e = entries[0];
        let d = element_depth(e);
        assert(e.depth < usize::MAX);
        let k = pop_count(stack, d);
        lemma_pop_keeps_bottom(stack, d);
        let next = next_stack(stack, e);
        let rest = entries.drop_first();
        assert(depths_bounded(rest)) by {
            assert forall|i: int| 0 <= i < rest.len() implies #[trigger] rest[i].depth < usize::MAX by {
                assert(rest[i] == entries[i + 1]);
            }
        }
        assert(next[0] == 0);
        lemma_tree_ops_from_nesting(next, rest);
        lemma_close_ops_nesting(k);
        lemma_entry_ops_nesting(e);
        let lo = 1 - stack.len();
        lemma_never_below_concat(close_ops(k), entry_ops(e), lo);
        lemma_never_below_concat(close_ops(k) + entry_ops(e), tree_ops_from(next, rest), lo);
    }
}

/// The XML document is well nested: every element it opens, the project
/// element and the root directory's element included, is closed exactly once,
/// and no close comes before its open. The directory tree, rebuilt from the
/// flat entry sequence, closes every directory that it opens and never
/// closes the root directory that it is written into.
pub proof fn lemma_document_well_nested(
    root_path: Seq<char>,
    root_name: Seq<char>,
    entries: Seq<DirEntryInfo>,
    files: Seq<FileInfo>,
)
    requires
        depths_bounded(entries),
    ensures
        nesting(tree_ops(entries)) == 0,
        never_below(tree_ops(entries), 0),
        nesting(project_ops(root_path, root_name, entries, files)) == 0,
        never_below(project_ops(root_path, root_name, entries, files), 0),
{
    lemma_tree_ops_from_nesting(seq![0usize], entries);
    let head = seq![
        XmlOp::Start("projectContext"@),
        XmlOp::Attr("rootPath"@, escape_attr(root_path)),
        XmlOp::Start("tree"@),
        XmlOp::Start("dir"@),
        XmlOp::Attr("name"@, escape_attr(root_name)),
    ];
    lemma_small_nesting(head);
    assert(head.take(5) =~= head);
    assert(nesting(head.take(0)) == 0);
    assert(nesting(head.take(1)) == 1);
    assert(nesting(head.take(2)) == 1);
    assert(nesting(head.take(3)) == 2);
    assert(nesting(head.take(4)) == 3);
    assert(nesting(head.take(5)) == 3);
    let mid = seq![XmlOp::End, XmlOp::End, XmlOp::Start("fileContents"@)];
    lemma_small_nesting(mid);
    assert(mid.take(3) =~= mid);
    assert(nesting(mid.take(1)) == -1);
    assert(nesting(mid.take(2)) == -2);
    assert(nesting(mid.take(3)) == -1);
    let body = if files.len() == 0 {
        seq![XmlOp::Comment(no_files_comment())]
    } else {
        files_ops(files)
    };
    if files.len() == 0 {
        lemma_small_nesting(body);
        assert(body.take(1) =~= body);
        assert(nesting(body.take(1)) == 0);
    } else {
        lemma_files_ops_nesting(files);
    }
    let tail = seq![XmlOp::End, XmlOp::End];
    lemma_small_nesting(tail);
    assert(tail.take(2) =~= tail);
    assert(nesting(tail.take(1)) == -1);
    assert(nesting(tail.take(2)) == -2);
    let t = tree_ops(entries);
    lemma_never_below_concat(head, t, 0);
    lemma_never_below_concat(head + t, mid, 0);
    lemma_never_below_concat(head + t + mid, body, 0);
    lemma_never_below_concat(head + t + mid + body, tail, 0);
    assert(project_ops(root_path, root_name, entries, files) =~= head + t + mid + body + tail);
}

} // verus!
