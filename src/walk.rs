use vstd::prelude::*;
use vstd::string::*;
use crate::model::{DirEntryInfo, FileInfo};
use ignore::overrides::OverrideBuilder;

verus! {

/// The gitignore-syntax line that forces every path matched by `pattern`
/// to be excluded: the pattern behind a leading `!`.
pub open spec fn exclusion_line(pattern: Seq<char>) -> Seq<char> {
    seq!['!'] + pattern
}

/// Turns a user pattern into an override line that always excludes its matches.
pub fn exclude_rule(pattern: &str) -> (r: String)
    ensures
        r@ == exclusion_line(pattern@),
{
    let mut r = String::from_str("!");
    proof {
        reveal_strlit("!");
    }
    r.append(pattern);
    r
}

/// The walker's own depth limit for a user limit `max_depth` (0 means no
/// limit). The walker counts the root as depth 0, so the limit is moved down
/// by one level; at the top of the range it saturates.
pub fn walker_max_depth(max_depth: usize) -> (r: Option<usize>)
    ensures
        max_depth == 0 ==> r is None,
        0 < max_depth < usize::MAX ==> r == Some((max_depth + 1) as usize),
        max_depth == usize::MAX ==> r == Some(max_depth),
{
    if max_depth == 0 {
        None
    } else if max_depth == usize::MAX {
        Some(max_depth)
    } else {
        Some(max_depth + 1)
    }
}

/// Whether an object at walker depth `walk_depth` (root = 0) is recorded as
/// an entry under the user limit `max_depth` (0 means no limit).
pub open spec fn is_recorded(walk_depth: nat, max_depth: nat) -> bool {
    &&& walk_depth >= 1
    &&& (max_depth == 0 || walk_depth - 1 < max_depth)
}

/// Records an object met by the walker at depth `walk_depth` as an entry whose
/// depth counts from the root's children. The root itself and anything at
/// normalized depth `max_depth` or below it (when a limit is set) give `None`.
pub fn record_entry(walk_depth: usize, name: String, is_dir: bool, max_depth: usize) -> (r: Option<DirEntryInfo>)
    ensures
        r is Some <==> is_recorded(walk_depth as nat, max_depth as nat),
        r matches Some(e) ==> {
            &&& e.name@ == name@
            &&& e.is_dir == is_dir
            &&& e.depth == walk_depth - 1
        },
{
    if walk_depth == 0 {
        return None;
    }
    let depth = walk_depth - 1;
    if max_depth > 0 && depth >= max_depth {
        return None;
    }
    Some(DirEntryInfo::new(name, is_dir, depth))
}


#[verifier::external_type_specification]
#[verifier::external_body]
pub struct ExOverrideBuilder(OverrideBuilder);

/// Whether a fresh override builder (case-sensitive, unclosed character
/// classes refused) accepts `line` as a gitignore line.
pub uninterp spec fn glob_accepted(line: Seq<char>) -> bool;

/// The lines that `add` accepted on a builder, in the order they were added.
/// A comment line or a blank line is accepted too, though it makes no glob;
/// a line that starts with `!` is neither.
pub uninterp spec fn override_lines(b: OverrideBuilder) -> Seq<Seq<char>>;

/// Relies on ignore::overrides::OverrideBuilder::new: an empty builder whose
/// globs match relative to `root`.
#[verifier::external_body]
fn new_override_builder(root: &str) -> (b: OverrideBuilder)
    ensures
        override_lines(b) == Seq::<Seq<char>>::empty(),
{
    OverrideBuilder::new(root)
}

/// Relies on ignore::overrides::OverrideBuilder::add: the line is added when
/// it parses as a gitignore glob, which depends on the line alone for a
/// builder made by `new_override_builder`; otherwise the builder is left as
/// it was and the parse error's message comes back.
#[verifier::external_body]
fn add_override(b: &mut OverrideBuilder, line: &str) -> (r: Option<String>)
    ensures
        r is None <==> glob_accepted(line@),
        r is None ==> override_lines(*final(b)) == override_lines(*old(b)).push(line@),
        r is Some ==> override_lines(*final(b)) == override_lines(*old(b)),
{
    b.add(line).err().map(|e| e.to_string())
}

/// The indices, in increasing order, of the patterns among the first `n`
/// whose exclusion line the override builder refuses.
pub open spec fn rejected_indices(patterns: Seq<String>, n: nat) -> Seq<usize>
    decreases n,
{
    if n == 0 {
        Seq::empty()
    } else {
        let before = rejected_indices(patterns, (n - 1) as nat);
        if glob_accepted(exclusion_line(patterns[n - 1]@)) {
            before
        } else {
            before.push((n - 1) as usize)
        }
    }
}

/// The exclusion lines of the patterns among the first `n` that the override
/// builder accepts, in order.
pub open spec fn accepted_lines(patterns: Seq<String>, n: nat) -> Seq<Seq<char>>
    decreases n,
{
    if n == 0 {
        Seq::empty()
    } else {
        let before = accepted_lines(patterns, (n - 1) as nat);
        let line = exclusion_line(patterns[n - 1]@);
        if glob_accepted(line) {
            before.push(line)
        } else {
            before
        }
    }
}

/// A pattern that was left out, with the reason the builder gave.
pub struct RejectedPattern {
    pub index: usize,
    pub reason: String,
}

/// Builds the override rules for the user's exclusion patterns, relative to
/// `root`: each pattern is registered as a line that always excludes its
/// matches. Patterns whose line does not parse are left out; they come back,
/// by index and with the parse error, so that the caller can warn about them.
pub fn exclusion_overrides(root: &str, patterns: &Vec<String>) -> (r: (OverrideBuilder, Vec<RejectedPattern>))
    ensures
        override_lines(r.0) == accepted_lines(patterns@, patterns@.len()),
        r.1@.len() == rejected_indices(patterns@, patterns@.len()).len(),
        forall|k: int|
            0 <= k < r.1@.len() ==> #[trigger] r.1@[k].index == rejected_indices(patterns@, patterns@.len())[k],
{
    let mut builder = new_override_builder(root);
    let mut rejected: Vec<RejectedPattern> = Vec::new();
    let mut i: usize = 0;
    while i < patterns.len()
        invariant
            i <= patterns@.len(),
            override_lines(builder) == accepted_lines(patterns@, i as nat),
            rejected@.len() == rejected_indices(patterns@, i as nat).len(),
            forall|k: int|
                0 <= k < rejected@.len() ==> #[trigger] rejected@[k].index == rejected_indices(patterns@, i as nat)[k],
        decreases patterns@.len() - i,
    {
        let line = exclude_rule(patterns[i].as_str());
        match add_override(&mut builder, line.as_str()) {
            None => {},
            Some(reason) => {
                rejected.push(RejectedPattern { index: i, reason });
            },
        }
        i = i + 1;
    }
    (builder, rejected)
}

/// What reading a file's content gave.
pub enum ReadOutcome {
    /// The content, read as text.
    Text(String),
    /// The bytes are not valid text (binary or not UTF-8).
    NotText,
    /// Any other read failure.
    Failed,
}

/// How loud a diagnostic about a file is.
#[derive(PartialEq, Eq, Structural, Clone, Copy, Debug)]
pub enum Severity {
    Info,
    Warning,
}

/// Takes the outcome of reading the file at `path` (relative to the root):
/// text content joins `files`; a non-text file is skipped with an
/// informational diagnostic, any other failure with a warning.
pub fn collect_file(files: &mut Vec<FileInfo>, path: String, outcome: ReadOutcome) -> (r: Option<Severity>)
    ensures
        outcome matches ReadOutcome::Text(c) ==> {
            &&& r is None
            &&& final(files)@.len() == old(files)@.len() + 1
            &&& final(files)@.take(old(files)@.len() as int) == old(files)@
            &&& final(files)@.last().path@ == path@
            &&& final(files)@.last().content@ == c@
        },
        outcome is NotText ==> r == Some(Severity::Info) && final(files)@ == old(files)@,
        outcome is Failed ==> r == Some(Severity::Warning) && final(files)@ == old(files)@,
{
    match outcome {
        ReadOutcome::Text(content) => {
            files.push(FileInfo::new(path, content));
            assert(files@.take(files@.len() - 1) =~= old(files)@);
            None
        },
        ReadOutcome::NotText => Some(Severity::Info),
        ReadOutcome::Failed => Some(Severity::Warning),
    }
}

} // verus!
