//! The files of a repository that a review is given to read.
use vstd::prelude::*;

use crate::bytes::{byte_len, counted_bytes};
use crate::number::{decimal, decimal_of};
use crate::order::{ordered_set, sort_unique};
use crate::paths::{components, components_of};
use crate::permissions::{trim_around, trim_chars};
use crate::sources::{truncate_context_contents, truncated_contents};
use crate::split::{lines, lines_of, trim, trimmed};
use crate::text::{
    after_prefix, chars_of, concat3, contains, has_text, join, joined, lowercase, opt_view,
    same_text, starts_with, strip_prefix, text_of, to_lowercase, views,
};

verus! {

/// The bytes of a file that is given along.
pub const MAX_CONTEXT_BYTES_PER_FILE: usize = 20000;

/// The files that are given along.
pub const MAX_CONTEXT_FILES: usize = 48;

/// The bytes of all changed files.
pub const MAX_CHANGED_CONTEXT_BYTES: usize = 1000000;

/// The changed files.
pub const MAX_CHANGED_CONTEXT_FILES: usize = 512;

/// A file that a review is given to read.
#[derive(Debug, PartialEq, Eq)]
pub struct ContextFile {
    pub path: String,
    pub contents: String,
}

/// A file that a review is given to read.
pub struct ContextFileView {
    pub path: Seq<char>,
    pub contents: Seq<char>,
}

impl View for ContextFile {
    type V = ContextFileView;

    open spec fn view(&self) -> ContextFileView {
        ContextFileView { path: self.path@, contents: self.contents@ }
    }
}

/// What files that a review is given are.
pub open spec fn context_file_views(s: Seq<ContextFile>) -> Seq<ContextFileView> {
    s.map_values(|f: ContextFile| f@)
}

/// A file with this path is among the files.
pub open spec fn has_path(files: Seq<ContextFileView>, path: Seq<char>) -> bool {
    exists|i: int| 0 <= i < files.len() && (#[trigger] files[i]).path == path
}

pub(crate) fn is_among(files: &Vec<ContextFile>, path: &str) -> (r: bool)
    ensures
        r == has_path(context_file_views(files@), path@),
{
    let ghost all = context_file_views(files@);
    let mut i: usize = 0;
    while i < files.len()
        invariant
            i <= files@.len(),
            all == context_file_views(files@),
            forall|k: int| 0 <= k < i ==> (#[trigger] all[k]).path != path@,
        decreases files@.len() - i,
    {
        proof {
            assert(all[i as int] == files@[i as int]@);
        }
        if same_text(files[i].path.as_str(), path) {
            return true;
        }
        i += 1;
    }
    false
}

// ---------------------------------------------------------------------------
// Names
// ---------------------------------------------------------------------------

/// The name of a file with tests.
pub open spec fn test_filename(name: Seq<char>) -> bool {
    let lower = lowercase(name);
    has_text(lower, "_test."@) || "test_"@.is_prefix_of(lower) || has_text(lower, ".test."@)
        || has_text(lower, ".spec."@)
}

/// Whether the name is that of a file with tests.
pub fn related_test_filename(name: &str) -> (r: bool)
    ensures
        r == test_filename(name@),
{
    let lower = to_lowercase(name);
    let lower = lower.as_str();
    contains(lower, "_test.") || starts_with(lower, "test_") || contains(lower, ".test.")
        || contains(lower, ".spec.")
}

/// The names of files with tests among the names of a directory.
pub open spec fn test_names(names: Seq<Seq<char>>) -> Seq<Seq<char>>
    decreases names.len(),
{
    if names.len() == 0 {
        Seq::empty()
    } else {
        let rest = test_names(names.drop_last());
        if test_filename(names.last()) {
            rest.push(names.last())
        } else {
            rest
        }
    }
}

pub(crate) fn keep_test_names(names: &Vec<String>) -> (r: Vec<String>)
    ensures
        views(r@) == test_names(views(names@)),
{
    let ghost all = views(names@);
    let mut r: Vec<String> = Vec::new();
    let mut i: usize = 0;
    proof {
        assert(views(r@) =~= test_names(all.take(0)));
    }
    while i < names.len()
        invariant
            i <= names@.len(),
            all == views(names@),
            views(r@) == test_names(all.take(i as int)),
        decreases names@.len() - i,
    {
        proof {
            assert(all.take(i + 1).drop_last() =~= all.take(i as int));
            assert(all.take(i + 1).last() == names@[i as int]@);
        }
        if related_test_filename(names[i].as_str()) {
            let ghost before = views(r@);
            r.push(names[i].clone());
            proof {
                assert(views(r@) =~= before.push(names@[i as int]@));
            }
        }
        i += 1;
    }
    proof {
        assert(all.take(all.len() as int) =~= all);
    }
    r
}

/// A path without the separators and full stops at its end that name nothing.
pub open spec fn without_tail(path: Seq<char>) -> Seq<char>
    decreases path.len(),
{
    if path.len() > 0 && path.last() == '/' {
        without_tail(path.drop_last())
    } else if path.len() > 1 && path.last() == '.' && path[path.len() - 2] == '/' {
        without_tail(path.drop_last())
    } else {
        path
    }
}

/// Where the last component of a path starts, looked for from `at` backwards.
pub open spec fn last_start(path: Seq<char>, at: int) -> int
    decreases at,
{
    if at <= 0 || at > path.len() || path[at - 1] == '/' {
        at
    } else {
        last_start(path, at - 1)
    }
}

/// The directory that a relative path lies in; none for the empty path.
pub open spec fn parent_of(path: Seq<char>) -> Option<Seq<char>> {
    let p = without_tail(path);
    if p.len() == 0 {
        None
    } else {
        Some(without_tail(p.take(last_start(p, p.len() as int))))
    }
}

fn tail_start(v: &Vec<char>, len: usize) -> (r: usize)
    requires
        len <= v@.len(),
    ensures
        r <= len,
        v@.take(r as int) == without_tail(v@.take(len as int)),
{
    let mut n: usize = len;
    while n > 0 && (v[n - 1] == '/' || (n > 1 && v[n - 1] == '.' && v[n - 2] == '/'))
        invariant
            n <= len <= v@.len(),
            without_tail(v@.take(n as int)) == without_tail(v@.take(len as int)),
        decreases n,
    {
        proof {
            assert(v@.take(n as int).drop_last() =~= v@.take(n - 1));
        }
        n -= 1;
    }
    n
}

/// The directory that a relative path lies in.
pub fn parent_path(path: &str) -> (r: Option<String>)
    ensures
        opt_view(r) == parent_of(path@),
{
    let v = chars_of(path);
    proof {
        assert(v@.take(v@.len() as int) =~= v@);
    }
    let n: usize = tail_start(&v, v.len());
    if n == 0 {
        return None;
    }
    let ghost p = v@.take(n as int);
    let mut at: usize = n;
    while at > 0 && v[at - 1] != '/'
        invariant
            at <= n <= v@.len(),
            p == v@.take(n as int),
            last_start(p, n as int) == last_start(p, at as int),
        decreases at,
    {
        at -= 1;
    }
    proof {
        assert(p.take(at as int) =~= v@.take(at as int));
    }
    let end: usize = tail_start(&v, at);
    let r = text_of(&v, 0, end);
    proof {
        assert(r@ =~= v@.take(end as int));
    }
    Some(r)
}

/// A directory, however it is written.
pub open spec fn directory_key(path: Seq<char>) -> Seq<char> {
    joined(components_of(path), "/"@)
}

pub(crate) fn key_of_directory(path: &str) -> (r: String)
    ensures
        r@ == directory_key(path@),
{
    let parts = components(path);
    join(&parts, "/")
}

/// The workflow of the repository that a line uses.
pub open spec fn used_workflow(line: Seq<char>) -> Option<Seq<char>> {
    match after_prefix(trimmed(line), "uses:"@) {
        None => None,
        Some(value) => match after_prefix(trim_around(trimmed(value), "'\""@), "./"@) {
            None => None,
            Some(path) => if ".github/workflows/"@.is_prefix_of(path) {
                Some(path)
            } else {
                None
            },
        },
    }
}

fn workflow_in(line: &str) -> (r: Option<String>)
    ensures
        opt_view(r) == used_workflow(line@),
{
    let line = trim(line);
    match strip_prefix(line.as_str(), "uses:") {
        None => None,
        Some(value) => {
            let value = trim(value.as_str());
            let value = trim_chars(value.as_str(), "'\"");
            match strip_prefix(value.as_str(), "./") {
                None => None,
                Some(path) => {
                    if starts_with(path.as_str(), ".github/workflows/") {
                        Some(path)
                    } else {
                        None
                    }
                },
            }
        },
    }
}

/// The workflows that lines use.
pub open spec fn workflows_in_lines(lines: Seq<Seq<char>>) -> Seq<Seq<char>>
    decreases lines.len(),
{
    if lines.len() == 0 {
        Seq::empty()
    } else {
        let rest = workflows_in_lines(lines.drop_last());
        match used_workflow(lines.last()) {
            Some(path) => rest.push(path),
            None => rest,
        }
    }
}

/// The workflows that files use.
pub open spec fn workflows_in_files(files: Seq<ContextFileView>) -> Seq<Seq<char>>
    decreases files.len(),
{
    if files.len() == 0 {
        Seq::empty()
    } else {
        workflows_in_files(files.drop_last()) + workflows_in_lines(
            lines_of(files.last().contents),
        )
    }
}

fn add_workflows(contents: &str, found: &mut Vec<String>)
    ensures
        views(final(found)@) == views(old(found)@) + workflows_in_lines(lines_of(contents@)),
{
    let all = lines(contents);
    let ghost seen = views(all@);
    let ghost before = views(found@);
    let mut i: usize = 0;
    proof {
        assert(before + workflows_in_lines(seen.take(0)) =~= before);
    }
    while i < all.len()
        invariant
            i <= all@.len(),
            seen == views(all@),
            before == views(old(found)@),
            views(found@) == before + workflows_in_lines(seen.take(i as int)),
        decreases all@.len() - i,
    {
        proof {
            assert(seen.take(i + 1).drop_last() =~= seen.take(i as int));
            assert(seen.take(i + 1).last() == all@[i as int]@);
        }
        if let Some(path) = workflow_in(all[i].as_str()) {
            let ghost earlier = views(found@);
            let ghost added = path@;
            found.push(path);
            proof {
                assert(views(found@) =~= earlier.push(added));
                assert(views(found@) =~= before + workflows_in_lines(seen.take(i + 1)));
            }
        }
        i += 1;
    }
    proof {
        assert(seen.take(seen.len() as int) =~= seen);
    }
}

/// The workflows of the repository that files use, in order, each once.
pub fn local_workflows(files: &Vec<ContextFile>) -> (r: Vec<String>)
    ensures
        views(r@) == ordered_set(workflows_in_files(context_file_views(files@))),
{
    let ghost all = context_file_views(files@);
    let mut found: Vec<String> = Vec::new();
    let mut i: usize = 0;
    proof {
        assert(views(found@) =~= workflows_in_files(all.take(0)));
    }
    while i < files.len()
        invariant
            i <= files@.len(),
            all == context_file_views(files@),
            views(found@) == workflows_in_files(all.take(i as int)),
        decreases files@.len() - i,
    {
        proof {
            assert(all.take(i + 1).drop_last() =~= all.take(i as int));
            assert(all.take(i + 1).last() == files@[i as int]@);
        }
        add_workflows(files[i].contents.as_str(), &mut found);
        i += 1;
    }
    proof {
        assert(all.take(all.len() as int) =~= all);
    }
    sort_unique(found)
}

// ---------------------------------------------------------------------------
// Files so far
// ---------------------------------------------------------------------------

/// The files so far.
#[derive(Debug, PartialEq, Eq)]
pub struct ContextFiles {
    pub files: Vec<ContextFile>,
    /// The bytes of the changed files among them.
    pub changed_bytes: usize,
    /// The paths of files that there was no room for.
    pub omitted: Vec<String>,
}

/// The files so far.
pub struct ContextFilesView {
    pub files: Seq<ContextFileView>,
    pub changed_bytes: nat,
    pub omitted: Seq<Seq<char>>,
}

impl View for ContextFiles {
    type V = ContextFilesView;

    open spec fn view(&self) -> ContextFilesView {
        ContextFilesView {
            files: context_file_views(self.files@),
            changed_bytes: self.changed_bytes as nat,
            omitted: views(self.omitted@),
        }
    }
}

/// The bytes that are left for changed files.
pub open spec fn remaining_bytes(c: ContextFilesView) -> nat {
    if c.changed_bytes <= MAX_CHANGED_CONTEXT_BYTES {
        (MAX_CHANGED_CONTEXT_BYTES - c.changed_bytes) as nat
    } else {
        0
    }
}

/// There is no room for a further file.
pub open spec fn no_room(c: ContextFilesView) -> bool {
    c.files.len() >= MAX_CONTEXT_FILES
}

/// That a changed file is too large.
pub open spec fn too_many_bytes(path: Seq<char>) -> Seq<char> {
    "ReviewGate changed-file repository-context byte limit exceeded while loading "@ + path
        + ": complete current-head contents exceed the 1000000-byte budget"@
}

/// The files with a changed one. Nothing is cut: a file that does not fit is an error.
pub open spec fn with_changed(
    c: ContextFilesView,
    path: Seq<char>,
    contents: Option<Seq<char>>,
) -> Result<ContextFilesView, Seq<char>> {
    if has_path(c.files, path) {
        Ok(c)
    } else {
        match contents {
            None => Ok(c),
            Some(text) => if counted_bytes(text) > remaining_bytes(c) {
                Err(too_many_bytes(path))
            } else {
                Ok(
                    ContextFilesView {
                        files: c.files.push(ContextFileView { path, contents: text }),
                        changed_bytes: c.changed_bytes + counted_bytes(text),
                        ..c
                    },
                )
            },
        }
    }
}

/// The files with a further one, which is cut where it is too large.
pub open spec fn with_further(
    c: ContextFilesView,
    path: Seq<char>,
    contents: Option<Seq<char>>,
) -> ContextFilesView {
    if no_room(c) || has_path(c.files, path) {
        c
    } else {
        match contents {
            None => c,
            Some(text) => ContextFilesView {
                files: c.files.push(
                    ContextFileView {
                        path,
                        contents: truncated_contents(text, MAX_CONTEXT_BYTES_PER_FILE as nat),
                    },
                ),
                ..c
            },
        }
    }
}

/// The files with a further one, or with its path where there is no room for it.
pub open spec fn with_offered(
    c: ContextFilesView,
    path: Seq<char>,
    contents: Option<Seq<char>>,
) -> ContextFilesView {
    if no_room(c) {
        ContextFilesView { omitted: c.omitted.push(path), ..c }
    } else {
        with_further(c, path, contents)
    }
}

/// Adds a changed file.
pub fn push_changed_context_file(
    context: &mut ContextFiles,
    relative: &str,
    contents: Option<String>,
) -> (r: Result<(), String>)
    ensures
        match with_changed(old(context)@, relative@, opt_view(contents)) {
            Ok(c) => r is Ok && final(context)@ == c,
            Err(e) => r matches Err(m) && m@ == e && final(context)@ == old(context)@,
        },
{
    if is_among(&context.files, relative) {
        return Ok(());
    }
    let contents = match contents {
        Some(contents) => contents,
        None => {
            return Ok(());
        },
    };
    let remaining: usize = if context.changed_bytes <= MAX_CHANGED_CONTEXT_BYTES {
        MAX_CHANGED_CONTEXT_BYTES - context.changed_bytes
    } else {
        0
    };
    let size: usize = byte_len(contents.as_str());
    if size > remaining {
        return Err(
            concat3(
                "ReviewGate changed-file repository-context byte limit exceeded while loading ",
                relative,
                ": complete current-head contents exceed the 1000000-byte budget",
            ),
        );
    }
    let ghost before = context@;
    context.changed_bytes = context.changed_bytes + size;
    let file = ContextFile { path: relative.to_owned(), contents };
    context.files.push(file);
    proof {
        assert(context@.files =~= before.files.push(file@));
    }
    Ok(())
}

/// Adds a further file, which is cut where it is too large.
pub fn push_context_file(context: &mut ContextFiles, relative: &str, contents: Option<String>)
    ensures
        final(context)@ == with_further(old(context)@, relative@, opt_view(contents)),
{
    proof {
        assert(context@.files.len() == context.files@.len());
    }
    if context.files.len() >= MAX_CONTEXT_FILES || is_among(&context.files, relative) {
        return;
    }
    let mut contents = match contents {
        Some(contents) => contents,
        None => {
            return;
        },
    };
    truncate_context_contents(&mut contents, MAX_CONTEXT_BYTES_PER_FILE);
    let ghost before = context@;
    let file = ContextFile { path: relative.to_owned(), contents };
    context.files.push(file);
    proof {
        assert(context@.files =~= before.files.push(file@));
    }
}

pub(crate) fn offer_context_file(context: &mut ContextFiles, relative: &str, contents: Option<String>)
    ensures
        final(context)@ == with_offered(old(context)@, relative@, opt_view(contents)),
{
    proof {
        assert(context@.files.len() == context.files@.len());
    }
    if context.files.len() >= MAX_CONTEXT_FILES {
        let ghost before = context@;
        context.omitted.push(relative.to_owned());
        proof {
            assert(context@.omitted =~= before.omitted.push(relative@));
        }
    } else {
        push_context_file(context, relative, contents);
    }
}

// ---------------------------------------------------------------------------
// Files that there was no room for
// ---------------------------------------------------------------------------

/// Paths, a line each.
pub open spec fn listed_paths(paths: Seq<Seq<char>>) -> Seq<char>
    decreases paths.len(),
{
    if paths.len() == 0 {
        Seq::empty()
    } else {
        listed_paths(paths.drop_last()) + "- "@ + paths.last() + "\n"@
    }
}

/// The first paths, as many as there may be files.
pub open spec fn first_paths(paths: Seq<Seq<char>>) -> Seq<Seq<char>> {
    if paths.len() > MAX_CONTEXT_FILES {
        paths.take(MAX_CONTEXT_FILES as int)
    } else {
        paths
    }
}

/// What is said of paths that there was no room for.
pub open spec fn omission_text(paths: Seq<Seq<char>>) -> Seq<char> {
    let head =
        "ReviewGate reached the 48-file repository-context cap. The unified diff and changed-file manifest still include the whole PR, but full current-head contents were not loaded for "@
        + decimal_of(paths.len()) + " path(s):\n"@ + listed_paths(first_paths(paths));
    if paths.len() > MAX_CONTEXT_FILES {
        head + "- ... and "@ + decimal_of((paths.len() - MAX_CONTEXT_FILES) as nat)
            + " more path(s)\n"@
    } else {
        head
    }
}

/// The files, with what is said of those that there was no room for.
pub open spec fn with_omissions(c: ContextFilesView) -> Seq<ContextFileView> {
    let omitted = ordered_set(c.omitted);
    if c.omitted.len() == 0 {
        c.files
    } else {
        c.files.push(
            ContextFileView {
                path: "[ReviewGate context omissions]"@,
                contents: omission_text(omitted),
            },
        )
    }
}

pub(crate) fn list_paths(text: &mut String, paths: &Vec<String>, count: usize)
    requires
        count <= paths@.len(),
    ensures
        final(text)@ == old(text)@ + listed_paths(views(paths@).take(count as int)),
{
    let ghost all = views(paths@);
    let ghost before = text@;
    let mut i: usize = 0;
    proof {
        assert(before + listed_paths(all.take(0)) =~= before);
    }
    while i < count
        invariant
            i <= count <= paths@.len(),
            all == views(paths@),
            before == old(text)@,
            text@ == before + listed_paths(all.take(i as int)),
        decreases count - i,
    {
        proof {
            assert(all.take(i + 1).drop_last() =~= all.take(i as int));
            assert(all.take(i + 1).last() == paths@[i as int]@);
        }
        text.append("- ");
        text.append(paths[i].as_str());
        text.append("\n");
        proof {
            assert(text@ =~= before + listed_paths(all.take(i + 1)));
        }
        i += 1;
    }
}

/// The files, with what is said of those that there was no room for.
pub fn finish_context_files(context: ContextFiles) -> (r: Vec<ContextFile>)
    ensures
        context_file_views(r@) == with_omissions(context@),
{
    proof {
        assert(context@.omitted.len() == context.omitted@.len());
    }
    let ghost before = context@;
    let mut files = context.files;
    if context.omitted.len() == 0 {
        return files;
    }
    let omitted = sort_unique(context.omitted);
    let ghost all = views(omitted@);
    proof {
        assert(all.len() == omitted@.len());
        assert(all.take(all.len() as int) =~= all);
    }
    let count = decimal(omitted.len() as u64);
    let mut contents = concat3(
        "ReviewGate reached the 48-file repository-context cap. The unified diff and changed-file manifest still include the whole PR, but full current-head contents were not loaded for ",
        count.as_str(),
        " path(s):\n",
    );
    if omitted.len() > MAX_CONTEXT_FILES {
        list_paths(&mut contents, &omitted, MAX_CONTEXT_FILES);
        let more = decimal((omitted.len() - MAX_CONTEXT_FILES) as u64);
        contents.append("- ... and ");
        contents.append(more.as_str());
        contents.append(" more path(s)\n");
    } else {
        list_paths(&mut contents, &omitted, omitted.len());
    }
    let file = ContextFile { path: "[ReviewGate context omissions]".to_owned(), contents };
    files.push(file);
    proof {
        assert(context_file_views(files@) =~= before.files.push(file@));
    }
    files
}

// ---------------------------------------------------------------------------
// What holds of it
// ---------------------------------------------------------------------------

/// A changed file is loaded whole, behind those before it, unless it is there already or
/// cannot be read; one that does not fit is an error.
pub proof fn law_changed_files_are_loaded_whole(
    c: ContextFilesView,
    path: Seq<char>,
    text: Seq<char>,
)
    ensures
        has_path(c.files, path) ==> with_changed(c, path, Some(text)) == Ok::<
            ContextFilesView,
            Seq<char>,
        >(c),
        with_changed(c, path, None) == Ok::<ContextFilesView, Seq<char>>(c),
        !has_path(c.files, path) && c.changed_bytes + counted_bytes(text) <= 1000000 ==> (
        with_changed(c, path, Some(text)) matches Ok(d) && d.files == c.files.push(
            ContextFileView { path, contents: text },
        ) && d.changed_bytes == c.changed_bytes + counted_bytes(text) && d.omitted == c.omitted),
        !has_path(c.files, path) && counted_bytes(text) > 0 && c.changed_bytes + counted_bytes(
            text,
        ) > 1000000 ==> with_changed(c, path, Some(text)) is Err,
{
}

/// A further file is loaded while there is room for files, cut to what one may have; where
/// there is no room, an offered one is told to be omitted.
pub proof fn law_further_files_are_loaded_while_there_is_room(
    c: ContextFilesView,
    path: Seq<char>,
    text: Seq<char>,
)
    ensures
        c.files.len() < 48 && !has_path(c.files, path) ==> with_further(c, path, Some(text)).files
            == c.files.push(
            ContextFileView { path, contents: truncated_contents(text, 20000) },
        ),
        c.files.len() >= 48 || has_path(c.files, path) ==> with_further(c, path, Some(text)) == c,
        with_further(c, path, None) == c,
        with_further(c, path, Some(text)).changed_bytes == c.changed_bytes,
        c.files.len() >= 48 ==> with_offered(c, path, Some(text)).omitted == c.omitted.push(path)
            && with_offered(c, path, Some(text)).files == c.files,
        c.files.len() < 48 ==> with_offered(c, path, Some(text)) == with_further(
            c,
            path,
            Some(text),
        ),
{
}

/// The names of tests are those that say so, in their order.
pub proof fn law_test_names(names: Seq<Seq<char>>, name: Seq<char>)
    ensures
        test_names(Seq::empty()).len() == 0,
        test_filename(name) ==> test_names(names.push(name)) == test_names(names).push(name),
        !test_filename(name) ==> test_names(names.push(name)) == test_names(names),
        has_text(lowercase(name), "_test."@) || "test_"@.is_prefix_of(lowercase(name)) || has_text(
            lowercase(name),
            ".test."@,
        ) || has_text(lowercase(name), ".spec."@) <==> test_filename(name),
{
    assert(names.push(name).drop_last() =~= names);
}

/// The workflows that a workflow uses are those that a line names behind `uses:`, below the
/// place of workflows.
pub proof fn law_used_workflows(lines: Seq<Seq<char>>, line: Seq<char>)
    ensures
        used_workflow(line) matches Some(path) ==> ".github/workflows/"@.is_prefix_of(path)
            && "uses:"@.is_prefix_of(trimmed(line)),
        used_workflow(line) matches Some(path) ==> workflows_in_lines(lines.push(line))
            == workflows_in_lines(lines).push(path),
        used_workflow(line) is None ==> workflows_in_lines(lines.push(line))
            == workflows_in_lines(lines),
        workflows_in_lines(Seq::empty()).len() == 0,
{
    assert(lines.push(line).drop_last() =~= lines);
}

/// The workflows of files are those of each, file by file.
pub proof fn law_workflows_of_files(files: Seq<ContextFileView>, file: ContextFileView)
    ensures
        workflows_in_files(Seq::empty()).len() == 0,
        workflows_in_files(files.push(file)) == workflows_in_files(files) + workflows_in_lines(
            lines_of(file.contents),
        ),
{
    assert(files.push(file).drop_last() =~= files);
}

/// Paths are listed one to a line, in their order.
pub proof fn law_listed_paths(paths: Seq<Seq<char>>, path: Seq<char>)
    ensures
        listed_paths(Seq::empty()) == Seq::<char>::empty(),
        listed_paths(paths.push(path)) == listed_paths(paths) + "- "@ + path + "\n"@,
{
    assert(paths.push(path).drop_last() =~= paths);
}

/// Files that were left out are told of behind the others, exactly if there are any: how
/// many, and the first of them.
pub proof fn law_omissions_are_told_of(c: ContextFilesView)
    ensures
        c.omitted.len() == 0 ==> with_omissions(c) == c.files,
        c.omitted.len() > 0 ==> with_omissions(c).len() == c.files.len() + 1 && with_omissions(
            c,
        ).last().path == "[ReviewGate context omissions]"@ && with_omissions(c).last().contents
            == omission_text(ordered_set(c.omitted)),
        forall|i: int|
            0 <= i < c.files.len() ==> #[trigger] with_omissions(c)[i] == c.files[i],
{
}

/// Up to 48 paths that were left out are listed, and of more it is told how many more.
pub proof fn law_long_lists_are_cut(paths: Seq<Seq<char>>)
    ensures
        paths.len() <= 48 ==> listed_paths(paths).is_suffix_of(omission_text(paths)),
        paths.len() > 48 ==> ("- ... and "@ + decimal_of((paths.len() - 48) as nat)
            + " more path(s)\n"@).is_suffix_of(omission_text(paths)),
{
    let all = omission_text(paths);
    if paths.len() <= 48 {
        let end = listed_paths(paths);
        assert(all.subrange(all.len() - end.len(), all.len() as int) =~= end);
    } else {
        let end = "- ... and "@ + decimal_of((paths.len() - 48) as nat) + " more path(s)\n"@;
        assert(all.subrange(all.len() - end.len(), all.len() as int) =~= end);
    }
}

/// The directory of a file is what stands before its last name.
pub proof fn law_parents(directory: Seq<char>, name: Seq<char>)
    requires
        name.len() > 0,
        !name.contains('/'),
        name.last() != '.',
        directory.len() > 0,
        directory.last() != '/' && directory.last() != '.',
    ensures
        parent_of(directory + seq!['/'] + name) == Some(directory),
        parent_of(name) == Some(Seq::<char>::empty()),
        parent_of(Seq::empty()) is None,
{
    let path = directory + seq!['/'] + name;
    let n = directory.len() as int;
    assert(path.last() == name.last());
    assert(name.contains(name.last()));
    assert(without_tail(path) == path);
    assert forall|j: int| n < j < path.len() implies path[j] != '/' by {
        assert(path[j] == name[j - n - 1]);
        assert(name.contains(name[j - n - 1]));
    }
    assert(path[n] == '/');
    lemma_last_start(path, path.len() as int, n + 1);
    let head = path.take(n + 1);
    assert(head.last() == '/');
    assert(head.drop_last() =~= directory);
    assert(without_tail(head) == without_tail(directory));
    assert(without_tail(directory) == directory);
    assert forall|j: int| 0 <= j < name.len() implies name[j] != '/' by {
        assert(name.contains(name[j]));
    }
    assert(without_tail(name) == name);
    lemma_last_start(name, name.len() as int, 0);
    assert(name.take(0) =~= Seq::empty());
}

proof fn lemma_last_start(path: Seq<char>, at: int, start: int)
    requires
        0 <= start <= at <= path.len(),
        start == 0 || path[start - 1] == '/',
        forall|j: int| start <= j < at ==> path[j] != '/',
    ensures
        last_start(path, at) == start,
    decreases at,
{
    if start < at {
        lemma_last_start(path, at - 1, start);
    }
}

/// A file is among the files from when it is there, and no other comes with it.
pub proof fn law_paths_of_files(
    files: Seq<ContextFileView>,
    file: ContextFileView,
    path: Seq<char>,
)
    ensures
        !has_path(Seq::empty(), path),
        has_path(files.push(file), path) <==> has_path(files, path) || file.path == path,
{
    let more = files.push(file);
    assert(more[files.len() as int] == file);
    if has_path(files, path) {
        let i = choose|i: int| 0 <= i < files.len() && (#[trigger] files[i]).path == path;
        assert(more[i].path == path);
    }
    if has_path(more, path) && file.path != path {
        let i = choose|i: int| 0 <= i < more.len() && (#[trigger] more[i]).path == path;
        assert(files[i].path == path);
    }
}

/// A file that is too large is named, and what is left is what was not used.
pub proof fn law_the_budget_of_changed_files(c: ContextFilesView, path: Seq<char>)
    ensures
        has_text(too_many_bytes(path), path),
        c.changed_bytes <= 1000000 ==> remaining_bytes(c) + c.changed_bytes == 1000000,
        c.changed_bytes > 1000000 ==> remaining_bytes(c) == 0,
{
    let head =
        "ReviewGate changed-file repository-context byte limit exceeded while loading "@;
    let text = too_many_bytes(path);
    assert(text.subrange(head.len() as int, (head.len() + path.len()) as int) =~= path);
    assert(crate::text::occurs_at(text, path, head.len() as int));
}

} // verus!
