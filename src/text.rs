use vstd::prelude::*;
use vstd::string::*;
use crate::model::{DirEntryInfo, FileInfo};

verus! {

/// Unicode's White_Space property, which `str::trim` goes by.
pub open spec fn is_white_space(c: char) -> bool {
    ||| '\u{9}' <= c <= '\u{d}'
    ||| c == ' '
    ||| c == '\u{85}'
    ||| c == '\u{a0}'
    ||| c == '\u{1680}'
    ||| '\u{2000}' <= c <= '\u{200a}'
    ||| c == '\u{2028}'
    ||| c == '\u{2029}'
    ||| c == '\u{202f}'
    ||| c == '\u{205f}'
    ||| c == '\u{3000}'
}

/// `s` without its leading white space.
pub open spec fn trim_start_of(s: Seq<char>) -> Seq<char>
    decreases s.len(),
{
    if s.len() > 0 && is_white_space(s[0]) {
        trim_start_of(s.drop_first())
    } else {
        s
    }
}

/// `s` without its trailing white space.
pub open spec fn trim_end_of(s: Seq<char>) -> Seq<char>
    decreases s.len(),
{
    if s.len() > 0 && is_white_space(s.last()) {
        trim_end_of(s.drop_last())
    } else {
        s
    }
}

/// `s` without its leading and trailing white space.
pub open spec fn trim_of(s: Seq<char>) -> Seq<char> {
    trim_end_of(trim_start_of(s))
}

/// Relies on str::trim: removes leading and trailing characters that have
/// the Unicode White_Space property.
#[verifier::external_body]
fn trimmed(s: &str) -> (r: String)
    ensures
        r@ == trim_of(s@),
{
    s.trim().to_string()
}

/// `n` spaces.
pub open spec fn spaces(n: nat) -> Seq<char> {
    Seq::new(n, |i: int| ' ')
}

/// The line that separates the file sections.
pub open spec fn separator() -> Seq<char> {
    "========================================"@
}

/// One tree line: the name indented by two spaces per level below the root,
/// with a trailing `/` for a directory.
pub open spec fn tree_line(e: DirEntryInfo) -> Seq<char> {
    spaces((2 * (e.depth + 1)) as nat) + e.name@ + (if e.is_dir {
        "/"@
    } else {
        Seq::empty()
    }) + "\n"@
}

/// The tree lines of `entries`, in order.
pub open spec fn tree_lines(entries: Seq<DirEntryInfo>) -> Seq<char>
    decreases entries.len(),
{
    if entries.len() == 0 {
        Seq::empty()
    } else {
        tree_lines(entries.drop_last()) + tree_line(entries.last())
    }
}

/// The header of a file section: separator, `File: <path>`, separator.
pub open spec fn file_header(path: Seq<char>) -> Seq<char> {
    separator() + "\n"@ + "File: "@ + path + "\n"@ + separator() + "\n"@
}

/// One file section: its header, the trimmed content and a blank line.
pub open spec fn file_section(f: FileInfo) -> Seq<char> {
    file_header(f.path@) + trim_of(f.content@) + "\n"@ + "\n"@
}

/// The file sections of `files`, in order.
pub open spec fn file_sections(files: Seq<FileInfo>) -> Seq<char>
    decreases files.len(),
{
    if files.len() == 0 {
        Seq::empty()
    } else {
        file_sections(files.drop_last()) + file_section(files.last())
    }
}

/// The line that stands in for an empty file-contents section.
pub open spec fn no_files_line() -> Seq<char> {
    "(No readable files found or all were excluded/ignored)\n"@
}

/// The whole plain-text document.
pub open spec fn text_document(
    root_name: Seq<char>,
    entries: Seq<DirEntryInfo>,
    files: Seq<FileInfo>,
) -> Seq<char> {
    "--- Directory Tree ---\n"@ + root_name + "/\n"@ + tree_lines(entries)
        + "\n--- File Contents ---\n"@ + (if files.len() == 0 {
        no_files_line()
    } else {
        file_sections(files)
    })
}

/// Appends the tree line of `e` to `out`.
fn push_tree_line(out: &mut String, e: &DirEntryInfo)
    ensures
        final(out)@ == old(out)@ + tree_line(*e),
{
    let ghost start = out@;
    out.append("  ");
    proof {
        reveal_strlit("  ");
        assert(out@ =~= start + spaces(2));
    }
    let mut k: usize = 0;
    while k < e.depth
        invariant
            k <= e.depth,
            out@ =~= start + spaces((2 * (k + 1)) as nat),
        decreases e.depth - k,
    {
        let ghost before = out@;
        out.append("  ");
        proof {
            reveal_strlit("  ");
            assert(spaces((2 * (k + 2)) as nat) =~= spaces((2 * (k + 1)) as nat) + "  "@);
        }
        assert(out@ =~= before + "  "@);
        k = k + 1;
    }
    out.append(e.name.as_str());
    if e.is_dir {
        out.append("/");
    }
    out.append("\n");
    assert(out@ =~= start + tree_line(*e));
}

/// Appends the section of `f` to `out`.
fn push_file_section(out: &mut String, f: &FileInfo)
    ensures
        final(out)@ == old(out)@ + file_section(*f),
{
    let ghost start = out@;
    out.append("========================================");
    out.append("\n");
    out.append("File: ");
    out.append(f.path.as_str());
    out.append("\n");
    out.append("========================================");
    out.append("\n");
    let body = trimmed(f.content.as_str());
    out.append(body.as_str());
    out.append("\n");
    out.append("\n");
    assert(out@ =~= start + file_section(*f));
}

/// Writes the project context as plain text: a header, the root's name and
/// one indented line per entry, then a section per loaded file with its
/// trimmed content, or a placeholder line when no file was loaded.
pub fn generate_text_output(
    root_name: &str,
    dir_entries: &Vec<DirEntryInfo>,
    file_contents: &Vec<FileInfo>,
) -> (r: String)
    ensures
        r@ == text_document(root_name@, dir_entries@, file_contents@),
{
    let ghost entries = dir_entries@;
    let ghost files = file_contents@;
    let mut out = String::from_str("--- Directory Tree ---\n");
    out.append(root_name);
    out.append("/\n");
    let ghost head = out@;
    let mut i: usize = 0;
    assert(entries.take(0) =~= Seq::<DirEntryInfo>::empty());
    while i < dir_entries.len()
        invariant
            i <= entries.len(),
            entries == dir_entries@,
            out@ =~= head + tree_lines(entries.take(i as int)),
        decreases entries.len() - i,
    {
        push_tree_line(&mut out, &dir_entries[i]);
        assert(entries.take(i + 1).drop_last() =~= entries.take(i as int));
        i = i + 1;
    }
    assert(entries.take(i as int) =~= entries);
    out.append("\n--- File Contents ---\n");
    let ghost mid = out@;
    if file_contents.len() == 0 {
        out.append("(No readable files found or all were excluded/ignored)\n");
    } else {
        let mut j: usize = 0;
        assert(files.take(0) =~= Seq::<FileInfo>::empty());
        while j < file_contents.len()
            invariant
                j <= files.len(),
                files == file_contents@,
                out@ =~= mid + file_sections(files.take(j as int)),
            decreases files.len() - j,
        {
            push_file_section(&mut out, &file_contents[j]);
            assert(files.take(j + 1).drop_last() =~= files.take(j as int));
            j = j + 1;
        }
        assert(files.take(j as int) =~= files);
    }
    out
}


/// Two file lists that agree, file by file, on the relative path and on the
/// trimmed content.
pub open spec fn same_sections(a: Seq<FileInfo>, b: Seq<FileInfo>) -> bool {
    &&& a.len() == b.len()
    &&& forall|i: int|
        0 <= i < a.len() ==> #[trigger] a[i].path@ == b[i].path@ && trim_of(a[i].content@) == trim_of(
            b[i].content@,
        )
}

proof fn lemma_file_sections_same(a: Seq<FileInfo>, b: Seq<FileInfo>)
    requires
        same_sections(a, b),
    ensures
        file_sections(a) == file_sections(b),
    decreases a.len(),
{
    if a.len() > 0 {
        let (a0, b0) = (a.drop_last(), b.drop_last());
        assert forall|i: int| 0 <= i < a0.len() implies #[trigger] a0[i].path@ == b0[i].path@
            && trim_of(a0[i].content@) == trim_of(b0[i].content@) by {
            assert(a0[i] == a[i] && b0[i] == b[i]);
        }
        lemma_file_sections_same(a0, b0);
        assert(a.last() == a[a.len() - 1]);
        assert(b.last() == b[b.len() - 1]);
    }
}

/// The text document is determined by the root name, the entries, and for
/// each loaded file its relative path and trimmed content: two runs over an
/// unchanged tree, walked in the same order, give the same separator lines,
/// the same `File: <path>` headers and the same document.
pub proof fn lemma_text_output_stable(
    root_name: Seq<char>,
    entries: Seq<DirEntryInfo>,
    a: Seq<FileInfo>,
    b: Seq<FileInfo>,
)
    requires
        same_sections(a, b),
    ensures
        text_document(root_name, entries, a) == text_document(root_name, entries, b),
        forall|i: int| 0 <= i < a.len() ==> #[trigger] file_header(a[i].path@) == file_header(b[i].path@),
{
    lemma_file_sections_same(a, b);
}

} // verus!
