//! In what order the files of a repository are read that a review is given.
use vstd::prelude::*;

use crate::context_files::{
    directory_key, finish_context_files, has_path, local_workflows, no_room, parent_of, parent_path,
    push_changed_context_file, remaining_bytes, with_changed, with_offered, with_omissions,
    workflows_in_files,
};
use crate::context_files::{
    context_file_views, ContextFile, ContextFileView, ContextFiles, ContextFilesView,
    MAX_CHANGED_CONTEXT_BYTES, MAX_CHANGED_CONTEXT_FILES, MAX_CONTEXT_BYTES_PER_FILE,
    MAX_CONTEXT_FILES,
};
use crate::context_files::{
    is_among, keep_test_names, key_of_directory, offer_context_file, test_names,
};
use crate::list::holds;
use crate::number::{decimal, decimal_of};
use crate::order::{ordered_set, sort_unique};
use crate::paths::{in_repository, resolve_repo_path, safe_relative, safe_relative_path};
use crate::reading::result_view;
use crate::text::{concat3, opt_view, views};

verus! {

/// Something that is still to be done.
#[derive(Debug, PartialEq, Eq)]
pub enum ContextTask {
    /// Read a changed file.
    Changed { path: String },
    /// Look for the workflows that the files use.
    Workflows,
    /// Read a further file.
    Further { path: String },
    /// Look for tests beside the changed files, if there is room.
    Tests,
    /// Look for tests beside a changed file.
    Beside { path: String },
}

/// Something that is still to be done.
pub enum TaskView {
    Changed { path: Seq<char> },
    Workflows,
    Further { path: Seq<char> },
    Tests,
    Beside { path: Seq<char> },
}

impl View for ContextTask {
    type V = TaskView;

    open spec fn view(&self) -> TaskView {
        match self {
            ContextTask::Changed { path } => TaskView::Changed { path: path@ },
            ContextTask::Workflows => TaskView::Workflows,
            ContextTask::Further { path } => TaskView::Further { path: path@ },
            ContextTask::Tests => TaskView::Tests,
            ContextTask::Beside { path } => TaskView::Beside { path: path@ },
        }
    }
}

/// What tasks are.
pub open spec fn task_views(s: Seq<ContextTask>) -> Seq<TaskView> {
    s.map_values(|t: ContextTask| t@)
}

/// Where the reading of files is.
#[derive(Debug, PartialEq, Eq)]
pub struct ContextCollector {
    /// What is still to be done, in order.
    tasks: Vec<ContextTask>,
    changed_files: Vec<String>,
    /// The directories that were looked into.
    scanned: Vec<String>,
    context: ContextFiles,
}

/// Where the reading of files is.
pub struct CollectorView {
    pub tasks: Seq<TaskView>,
    pub changed_files: Seq<Seq<char>>,
    pub scanned: Seq<Seq<char>>,
    pub context: ContextFilesView,
}

impl View for ContextCollector {
    type V = CollectorView;

    closed spec fn view(&self) -> CollectorView {
        CollectorView {
            tasks: task_views(self.tasks@),
            changed_files: views(self.changed_files@),
            scanned: views(self.scanned@),
            context: self.context@,
        }
    }
}

/// What the reading of files asks for next.
#[derive(Debug, PartialEq, Eq)]
pub enum ContextRequest {
    /// The text of a file, of which one byte more than the limit is read.
    Read { path: String, limit: usize },
    /// The names in a directory.
    List { directory: String },
    /// Nothing: the reading goes on by itself.
    Nothing,
    /// Nothing: all files were read.
    Done,
}

/// What the reading of files asks for next.
pub enum RequestView {
    Read { path: Seq<char>, limit: nat },
    List { directory: Seq<char> },
    Nothing,
    Done,
}

impl View for ContextRequest {
    type V = RequestView;

    open spec fn view(&self) -> RequestView {
        match self {
            ContextRequest::Read { path, limit } => RequestView::Read {
                path: path@,
                limit: *limit as nat,
            },
            ContextRequest::List { directory } => RequestView::List { directory: directory@ },
            ContextRequest::Nothing => RequestView::Nothing,
            ContextRequest::Done => RequestView::Done,
        }
    }
}

/// The files that are given along where a repository has them; `guide` is the one with
/// the instructions for the assistant in use.
pub open spec fn default_files(guide: Seq<char>) -> Seq<Seq<char>> {
    seq![
        "AGENTS.md"@,
        guide,
        "README.md"@,
        "TECH.md"@,
        "PRODUCT.md"@,
        "STRUCTURE.md"@,
        ".reviewgate.yml"@,
    ]
}

/// The tasks of reading changed files.
pub open spec fn changed_tasks(paths: Seq<Seq<char>>) -> Seq<TaskView> {
    paths.map_values(|p: Seq<char>| TaskView::Changed { path: p })
}

/// The tasks of reading further files.
pub open spec fn further_tasks(paths: Seq<Seq<char>>) -> Seq<TaskView> {
    paths.map_values(|p: Seq<char>| TaskView::Further { path: p })
}

/// The tasks of looking for tests beside files.
pub open spec fn beside_tasks(paths: Seq<Seq<char>>) -> Seq<TaskView> {
    paths.map_values(|p: Seq<char>| TaskView::Beside { path: p })
}

/// Where reading starts. More changed files than there may be are an error.
pub open spec fn collector_start(changed: Seq<Seq<char>>, guide: Seq<char>) -> Result<
    CollectorView,
    Seq<char>,
> {
    if changed.len() > MAX_CHANGED_CONTEXT_FILES {
        Err(
            "ReviewGate changed-file repository-context limit exceeded: "@ + decimal_of(
                changed.len(),
            ) + " paths is greater than the supported maximum of 512"@,
        )
    } else {
        Ok(
            CollectorView {
                tasks: changed_tasks(changed) + seq![TaskView::Workflows] + further_tasks(
                    default_files(guide),
                ) + seq![TaskView::Tests],
                changed_files: changed,
                scanned: Seq::empty(),
                context: ContextFilesView {
                    files: Seq::empty(),
                    changed_bytes: 0,
                    omitted: Seq::empty(),
                },
            },
        )
    }
}

/// The directory beside a changed file that was not looked into yet.
pub open spec fn new_directory(c: CollectorView, path: Seq<char>) -> Option<Seq<char>> {
    if !safe_relative(path) {
        None
    } else {
        match parent_of(path) {
            None => None,
            Some(parent) => if c.scanned.contains(directory_key(parent)) {
                None
            } else {
                Some(parent)
            },
        }
    }
}

/// What reading asks for next.
pub open spec fn request_of(c: CollectorView) -> RequestView {
    if c.tasks.len() == 0 {
        RequestView::Done
    } else {
        match c.tasks[0] {
            TaskView::Changed { path } => if has_path(c.context.files, path) {
                RequestView::Nothing
            } else {
                RequestView::Read { path, limit: remaining_bytes(c.context) }
            },
            TaskView::Further { path } => if no_room(c.context) || has_path(
                c.context.files,
                path,
            ) {
                RequestView::Nothing
            } else {
                RequestView::Read { path, limit: MAX_CONTEXT_BYTES_PER_FILE as nat }
            },
            TaskView::Beside { path } => match new_directory(c, path) {
                Some(directory) => RequestView::List { directory },
                None => RequestView::Nothing,
            },
            TaskView::Workflows => RequestView::Nothing,
            TaskView::Tests => RequestView::Nothing,
        }
    }
}

/// What there is in answer to what reading asked for.
#[derive(Debug, PartialEq, Eq)]
pub struct ContextAnswer {
    /// The text of the file, if it may be read and is text.
    pub contents: Option<String>,
    /// The names in the directory, if it could be read.
    pub names: Vec<String>,
}

/// The paths of the tests in a directory, in order.
pub open spec fn tests_in(directory: Seq<char>, names: Seq<Seq<char>>) -> Seq<Seq<char>> {
    ordered_set(test_names(names)).map_values(|n: Seq<char>| in_repository(directory, n))
}

/// Reading with the first task done.
pub open spec fn collector_step(
    c: CollectorView,
    contents: Option<Seq<char>>,
    names: Seq<Seq<char>>,
) -> Result<CollectorView, Seq<char>> {
    if c.tasks.len() == 0 {
        Ok(c)
    } else {
        let rest = CollectorView { tasks: c.tasks.skip(1), ..c };
        match c.tasks[0] {
            TaskView::Changed { path } => match with_changed(c.context, path, contents) {
                Ok(context) => Ok(CollectorView { context, ..rest }),
                Err(e) => Err(e),
            },
            TaskView::Workflows => Ok(
                CollectorView {
                    tasks: further_tasks(ordered_set(workflows_in_files(c.context.files)))
                        + rest.tasks,
                    ..rest
                },
            ),
            TaskView::Further { path } => Ok(
                CollectorView { context: with_offered(c.context, path, contents), ..rest },
            ),
            TaskView::Tests => if no_room(c.context) {
                Ok(rest)
            } else {
                Ok(CollectorView { tasks: beside_tasks(c.changed_files) + rest.tasks, ..rest })
            },
            TaskView::Beside { path } => match new_directory(c, path) {
                None => Ok(rest),
                Some(directory) => Ok(
                    CollectorView {
                        tasks: further_tasks(tests_in(directory, names)) + rest.tasks,
                        scanned: c.scanned.push(directory_key(directory)),
                        ..rest
                    },
                ),
            },
        }
    }
}

fn changed_task_list(paths: &Vec<String>) -> (r: Vec<ContextTask>)
    ensures
        task_views(r@) == changed_tasks(views(paths@)),
{
    let mut r: Vec<ContextTask> = Vec::new();
    let mut i: usize = 0;
    while i < paths.len()
        invariant
            i <= paths@.len(),
            r@.len() == i,
            forall|k: int|
                0 <= k < i ==> (#[trigger] r@[k])@ == (TaskView::Changed { path: paths@[k]@ }),
        decreases paths@.len() - i,
    {
        r.push(ContextTask::Changed { path: paths[i].clone() });
        i += 1;
    }
    proof {
        assert(task_views(r@) =~= changed_tasks(views(paths@)));
    }
    r
}

fn further_task_list(paths: &Vec<String>) -> (r: Vec<ContextTask>)
    ensures
        task_views(r@) == further_tasks(views(paths@)),
{
    let mut r: Vec<ContextTask> = Vec::new();
    let mut i: usize = 0;
    while i < paths.len()
        invariant
            i <= paths@.len(),
            r@.len() == i,
            forall|k: int|
                0 <= k < i ==> (#[trigger] r@[k])@ == (TaskView::Further { path: paths@[k]@ }),
        decreases paths@.len() - i,
    {
        r.push(ContextTask::Further { path: paths[i].clone() });
        i += 1;
    }
    proof {
        assert(task_views(r@) =~= further_tasks(views(paths@)));
    }
    r
}

fn beside_task_list(paths: &Vec<String>) -> (r: Vec<ContextTask>)
    ensures
        task_views(r@) == beside_tasks(views(paths@)),
{
    let mut r: Vec<ContextTask> = Vec::new();
    let mut i: usize = 0;
    while i < paths.len()
        invariant
            i <= paths@.len(),
            r@.len() == i,
            forall|k: int|
                0 <= k < i ==> (#[trigger] r@[k])@ == (TaskView::Beside { path: paths@[k]@ }),
        decreases paths@.len() - i,
    {
        r.push(ContextTask::Beside { path: paths[i].clone() });
        i += 1;
    }
    proof {
        assert(task_views(r@) =~= beside_tasks(views(paths@)));
    }
    r
}

fn default_file_list(guide: &str) -> (r: Vec<String>)
    ensures
        views(r@) == default_files(guide@),
{
    let mut r: Vec<String> = Vec::new();
    r.push("AGENTS.md".to_owned());
    r.push(guide.to_owned());
    r.push("README.md".to_owned());
    r.push("TECH.md".to_owned());
    r.push("PRODUCT.md".to_owned());
    r.push("STRUCTURE.md".to_owned());
    r.push(".reviewgate.yml".to_owned());
    proof {
        assert(views(r@) =~= default_files(guide@));
    }
    r
}

fn tests_in_directory(directory: &str, names: &Vec<String>) -> (r: Vec<String>)
    ensures
        views(r@) == tests_in(directory@, views(names@)),
{
    let tests = sort_unique(keep_test_names(names));
    let mut r: Vec<String> = Vec::new();
    let mut i: usize = 0;
    while i < tests.len()
        invariant
            i <= tests@.len(),
            r@.len() == i,
            forall|k: int|
                0 <= k < i ==> (#[trigger] r@[k])@ == in_repository(directory@, tests@[k]@),
        decreases tests@.len() - i,
    {
        r.push(resolve_repo_path(directory, tests[i].as_str()));
        i += 1;
    }
    proof {
        assert(views(r@) =~= tests_in(directory@, views(names@)));
    }
    r
}

fn put_first(first: Vec<ContextTask>, rest: Vec<ContextTask>) -> (r: Vec<ContextTask>)
    ensures
        task_views(r@) == task_views(first@) + task_views(rest@),
{
    let ghost a = task_views(first@);
    let ghost b = task_views(rest@);
    let mut r = first;
    let mut rest = rest;
    r.append(&mut rest);
    proof {
        assert(task_views(r@) =~= a + b);
    }
    r
}

impl ContextCollector {
    /// Where reading starts; `guide` is the file with the instructions for the assistant
    /// in use.
    pub fn start(changed_files: Vec<String>, guide: &str) -> (r: Result<Self, String>)
        ensures
            result_view(r) == collector_start(views(changed_files@), guide@),
    {
        proof {
            assert(views(changed_files@).len() == changed_files@.len());
        }
        if changed_files.len() > MAX_CHANGED_CONTEXT_FILES {
            let count = decimal(changed_files.len() as u64);
            return Err(
                concat3(
                    "ReviewGate changed-file repository-context limit exceeded: ",
                    count.as_str(),
                    " paths is greater than the supported maximum of 512",
                ),
            );
        }
        let mut workflows: Vec<ContextTask> = Vec::new();
        workflows.push(ContextTask::Workflows);
        let mut tests: Vec<ContextTask> = Vec::new();
        tests.push(ContextTask::Tests);
        proof {
            assert(task_views(workflows@) =~= seq![TaskView::Workflows]);
            assert(task_views(tests@) =~= seq![TaskView::Tests]);
        }
        let tasks = put_first(changed_task_list(&changed_files), workflows);
        let defaults = default_file_list(guide);
        let tasks = put_first(tasks, further_task_list(&defaults));
        let tasks = put_first(tasks, tests);
        let r = ContextCollector {
            tasks,
            changed_files,
            scanned: Vec::new(),
            context: ContextFiles { files: Vec::new(), changed_bytes: 0, omitted: Vec::new() },
        };
        proof {
            assert(r@.scanned =~= Seq::empty());
            assert(r@.context.files =~= Seq::empty());
            assert(r@.context.omitted =~= Seq::empty());
        }
        Ok(r)
    }

    fn directory_beside(&self, path: &str) -> (r: Option<String>)
        ensures
            opt_view(r) == new_directory(self@, path@),
    {
        match safe_relative_path(path) {
            None => None,
            Some(_) => match parent_path(path) {
                None => None,
                Some(parent) => {
                    let key = key_of_directory(parent.as_str());
                    if holds(&self.scanned, key.as_str()) {
                        None
                    } else {
                        Some(parent)
                    }
                },
            },
        }
    }

    /// What reading asks for next.
    pub fn request(&self) -> (r: ContextRequest)
        ensures
            r@ == request_of(self@),
    {
        proof {
            assert(self@.tasks.len() == self.tasks@.len());
            assert(self@.context.files.len() == self.context.files@.len());
        }
        if self.tasks.len() == 0 {
            return ContextRequest::Done;
        }
        proof {
            assert(self@.tasks[0] == self.tasks@[0]@);
        }
        match &self.tasks[0] {
            ContextTask::Changed { path } => {
                if is_among(&self.context.files, path.as_str()) {
                    ContextRequest::Nothing
                } else {
                    let limit: usize = if self.context.changed_bytes
                        <= MAX_CHANGED_CONTEXT_BYTES {
                        MAX_CHANGED_CONTEXT_BYTES - self.context.changed_bytes
                    } else {
                        0
                    };
                    ContextRequest::Read { path: path.clone(), limit }
                }
            },
            ContextTask::Further { path } => {
                if self.context.files.len() >= MAX_CONTEXT_FILES || is_among(
                    &self.context.files,
                    path.as_str(),
                ) {
                    ContextRequest::Nothing
                } else {
                    ContextRequest::Read { path: path.clone(), limit: MAX_CONTEXT_BYTES_PER_FILE }
                }
            },
            ContextTask::Beside { path } => match self.directory_beside(path.as_str()) {
                Some(directory) => ContextRequest::List { directory },
                None => ContextRequest::Nothing,
            },
            ContextTask::Workflows => ContextRequest::Nothing,
            ContextTask::Tests => ContextRequest::Nothing,
        }
    }

    /// Does the first task, with the answer to what reading asked for.
    pub fn record(self, answer: ContextAnswer) -> (r: Result<Self, String>)
        ensures
            result_view(r) == collector_step(
                self@,
                opt_view(answer.contents),
                views(answer.names@),
            ),
    {
        proof {
            assert(self@.tasks.len() == self.tasks@.len());
        }
        if self.tasks.len() == 0 {
            return Ok(self);
        }
        let ghost before = self@;
        let mut c = self;
        proof {
            assert(before.tasks[0] == c.tasks@[0]@);
        }
        let task = c.tasks.remove(0);
        proof {
            assert(task_views(c.tasks@) =~= before.tasks.skip(1));
            assert(c@ == (CollectorView { tasks: before.tasks.skip(1), ..before }));
        }
        match task {
            ContextTask::Changed { path } => match push_changed_context_file(
                &mut c.context,
                path.as_str(),
                answer.contents,
            ) {
                Ok(_) => Ok(c),
                Err(e) => Err(e),
            },
            ContextTask::Workflows => {
                let workflows = local_workflows(&c.context.files);
                let first = further_task_list(&workflows);
                let tasks = put_first(first, c.tasks);
                Ok(
                    ContextCollector {
                        tasks,
                        changed_files: c.changed_files,
                        scanned: c.scanned,
                        context: c.context,
                    },
                )
            },
            ContextTask::Further { path } => {
                offer_context_file(&mut c.context, path.as_str(), answer.contents);
                Ok(c)
            },
            ContextTask::Tests => {
                proof {
                    assert(c@.context.files.len() == c.context.files@.len());
                }
                if c.context.files.len() >= MAX_CONTEXT_FILES {
                    return Ok(c);
                }
                let first = beside_task_list(&c.changed_files);
                let tasks = put_first(first, c.tasks);
                Ok(
                    ContextCollector {
                        tasks,
                        changed_files: c.changed_files,
                        scanned: c.scanned,
                        context: c.context,
                    },
                )
            },
            ContextTask::Beside { path } => {
                let found = c.directory_beside(path.as_str());
                proof {
                    assert(new_directory(c@, path@) == new_directory(before, path@));
                }
                match found {
                    None => Ok(c),
                    Some(directory) => {
                        let tests = tests_in_directory(directory.as_str(), &answer.names);
                        let first = further_task_list(&tests);
                        let tasks = put_first(first, c.tasks);
                        let mut scanned = c.scanned;
                        let key = key_of_directory(directory.as_str());
                        let ghost earlier = views(scanned@);
                        let ghost added = key@;
                        scanned.push(key);
                        proof {
                            assert(views(scanned@) =~= earlier.push(added));
                        }
                        Ok(
                            ContextCollector {
                                tasks,
                                changed_files: c.changed_files,
                                scanned,
                                context: c.context,
                            },
                        )
                    },
                }
            },
        }
    }

    /// The files that were read, with what is said of those that there was no room for.
    pub fn finish(self) -> (r: Vec<ContextFile>)
        ensures
            context_file_views(r@) == with_omissions(self@.context),
    {
        finish_context_files(self.context)
    }
}

// ---------------------------------------------------------------------------
// Laws
// ---------------------------------------------------------------------------

/// No two files have one path.
pub open spec fn paths_differ(files: Seq<ContextFileView>) -> bool {
    forall|i: int, j: int|
        0 <= i < j < files.len() ==> (#[trigger] files[i]).path != (#[trigger] files[j]).path
}

/// What holds of the files at every point: no file is read twice, and the changed files
/// take no more bytes than they may.
pub open spec fn within_bounds(c: ContextFilesView) -> bool {
    paths_differ(c.files) && c.changed_bytes <= MAX_CHANGED_CONTEXT_BYTES
}

/// The bounds hold where reading starts, and every step keeps them.
pub proof fn law_reading_stays_within_bounds(
    c: CollectorView,
    contents: Option<Seq<char>>,
    names: Seq<Seq<char>>,
)
    requires
        within_bounds(c.context),
    ensures
        collector_step(c, contents, names) matches Ok(next) ==> within_bounds(next.context),
{
}

/// Reading starts within the bounds.
pub proof fn law_reading_starts_within_bounds(changed: Seq<Seq<char>>, guide: Seq<char>)
    ensures
        collector_start(changed, guide) matches Ok(c) ==> within_bounds(c.context) && changed.len()
            <= MAX_CHANGED_CONTEXT_FILES,
{
}

/// A further file never makes the files more than there may be; changed files are never
/// left out for want of room.
pub proof fn law_further_files_are_bounded(
    c: CollectorView,
    contents: Option<Seq<char>>,
    names: Seq<Seq<char>>,
)
    requires
        c.tasks.len() > 0,
        !(c.tasks[0] is Changed),
    ensures
        collector_step(c, contents, names) matches Ok(next) && (next.context.files.len()
            <= c.context.files.len() || next.context.files.len() <= MAX_CONTEXT_FILES),
{
}

/// How many tasks there are of each kind.
pub open spec fn task_count(tasks: Seq<TaskView>, kind: spec_fn(TaskView) -> bool) -> nat
    decreases tasks.len(),
{
    if tasks.len() == 0 {
        0
    } else {
        task_count(tasks.drop_last(), kind) + if kind(tasks.last()) {
            1nat
        } else {
            0nat
        }
    }
}

/// The task asks for what other tasks come of.
pub open spec fn tests_task(t: TaskView) -> bool {
    t is Tests
}

/// The task asks for what reading comes of.
pub open spec fn search_task(t: TaskView) -> bool {
    t is Beside || t is Workflows
}

/// How many tasks of these kinds there are.
pub open spec fn tests_left(c: CollectorView) -> nat {
    task_count(c.tasks, |t: TaskView| tests_task(t))
}

/// How many tasks there are from which tasks of reading come.
pub open spec fn searches_left(c: CollectorView) -> nat {
    task_count(c.tasks, |t: TaskView| search_task(t))
}

proof fn lemma_count_concat(a: Seq<TaskView>, b: Seq<TaskView>, kind: spec_fn(TaskView) -> bool)
    ensures
        task_count(a + b, kind) == task_count(a, kind) + task_count(b, kind),
    decreases b.len(),
{
    if b.len() == 0 {
        assert(a + b =~= a);
    } else {
        assert((a + b).drop_last() =~= a + b.drop_last());
        lemma_count_concat(a, b.drop_last(), kind);
    }
}

proof fn lemma_count_none(a: Seq<TaskView>, kind: spec_fn(TaskView) -> bool)
    requires
        forall|i: int| 0 <= i < a.len() ==> !kind(#[trigger] a[i]),
    ensures
        task_count(a, kind) == 0,
    decreases a.len(),
{
    if a.len() > 0 {
        lemma_count_none(a.drop_last(), kind);
    }
}

proof fn lemma_count_first(tasks: Seq<TaskView>, kind: spec_fn(TaskView) -> bool)
    requires
        tasks.len() > 0,
    ensures
        task_count(tasks, kind) == (if kind(tasks[0]) {
            1nat
        } else {
            0nat
        }) + task_count(tasks.skip(1), kind),
{
    let first = seq![tasks[0]];
    lemma_count_concat(first, tasks.skip(1), kind);
    assert(first + tasks.skip(1) =~= tasks);
    assert(first.drop_last() =~= Seq::empty());
    assert(task_count(first.drop_last(), kind) == 0);
}

/// Reading comes to an end: every step leaves fewer searches for tests to start, or as
/// many of them and fewer searches, or as many of both and fewer files to read.
pub proof fn law_reading_ends(
    c: CollectorView,
    contents: Option<Seq<char>>,
    names: Seq<Seq<char>>,
)
    requires
        c.tasks.len() > 0,
    ensures
        collector_step(c, contents, names) matches Ok(next) ==> tests_left(next) < tests_left(c)
            || (tests_left(next) == tests_left(c) && searches_left(next) < searches_left(c)) || (
        tests_left(next) == tests_left(c) && searches_left(next) == searches_left(c)
            && next.tasks.len() < c.tasks.len()),
{
    let is_test = |t: TaskView| tests_task(t);
    let is_search = |t: TaskView| search_task(t);
    lemma_count_first(c.tasks, is_test);
    lemma_count_first(c.tasks, is_search);
    let rest = c.tasks.skip(1);
    match c.tasks[0] {
        TaskView::Workflows => {
            let more = further_tasks(ordered_set(workflows_in_files(c.context.files)));
            lemma_count_concat(more, rest, is_test);
            lemma_count_concat(more, rest, is_search);
            lemma_count_none(more, is_test);
            lemma_count_none(more, is_search);
        },
        TaskView::Tests => {
            let more = beside_tasks(c.changed_files);
            lemma_count_concat(more, rest, is_test);
            lemma_count_none(more, is_test);
        },
        TaskView::Beside { path } => {
            if let Some(directory) = new_directory(c, path) {
                let more = further_tasks(tests_in(directory, names));
                lemma_count_concat(more, rest, is_test);
                lemma_count_concat(more, rest, is_search);
                lemma_count_none(more, is_test);
                lemma_count_none(more, is_search);
            }
        },
        _ => {},
    }
}

// ---------------------------------------------------------------------------
// What holds of it
// ---------------------------------------------------------------------------

/// The changed files are read first, in their order, and then what is told of the
/// repository; tests are looked for last. More than 512 changed files are refused.
pub proof fn law_changed_files_are_read_first(changed: Seq<Seq<char>>, guide: Seq<char>)
    ensures
        collector_start(changed, guide) is Ok <==> changed.len() <= 512,
        collector_start(changed, guide) matches Ok(c) ==> {
            &&& c.tasks.len() == changed.len() + 9
            &&& forall|i: int|
                0 <= i < changed.len() ==> #[trigger] c.tasks[i] == (TaskView::Changed {
                    path: changed[i],
                })
            &&& c.tasks[changed.len() as int] is Workflows
            &&& c.tasks[changed.len() as int + 1] == (TaskView::Further { path: "AGENTS.md"@ })
            &&& c.tasks[changed.len() as int + 2] == (TaskView::Further { path: guide })
            &&& c.tasks[changed.len() as int + 3] == (TaskView::Further { path: "README.md"@ })
            &&& c.tasks[changed.len() as int + 4] == (TaskView::Further { path: "TECH.md"@ })
            &&& c.tasks[changed.len() as int + 5] == (TaskView::Further { path: "PRODUCT.md"@ })
            &&& c.tasks[changed.len() as int + 6] == (TaskView::Further { path: "STRUCTURE.md"@ })
            &&& c.tasks[changed.len() as int + 7] == (TaskView::Further { path: ".reviewgate.yml"@ })
            &&& c.tasks.last() is Tests
            &&& c.changed_files == changed
            &&& c.context.files.len() == 0
        },
{
}

/// A file that is already there is not read again; a changed file may fill what is left,
/// and any other no more than one file may.
pub proof fn law_files_are_read_once(c: CollectorView, path: Seq<char>)
    requires
        c.tasks.len() > 0,
    ensures
        c.tasks[0] == (TaskView::Changed { path }) && has_path(c.context.files, path)
            ==> request_of(c) is Nothing,
        c.tasks[0] == (TaskView::Changed { path }) && !has_path(c.context.files, path)
            ==> request_of(c) == (RequestView::Read { path, limit: remaining_bytes(c.context) }),
        c.tasks[0] == (TaskView::Further { path }) && has_path(c.context.files, path)
            ==> request_of(c) is Nothing,
        c.tasks[0] == (TaskView::Further { path }) && no_room(c.context) ==> request_of(
            c,
        ) is Nothing,
        c.tasks[0] == (TaskView::Further { path }) && !no_room(c.context) && !has_path(
            c.context.files,
            path,
        ) ==> (request_of(c) matches RequestView::Read { path: p, limit } && p == path && limit
            == MAX_CONTEXT_BYTES_PER_FILE),
{
}

/// Reading is over exactly if there is nothing left to do.
pub proof fn law_reading_is_over(c: CollectorView)
    ensures
        request_of(c) is Done <==> c.tasks.len() == 0,
{
}

/// The workflows that the files use are read before everything that is left.
pub proof fn law_workflows_are_read_next(
    c: CollectorView,
    contents: Option<Seq<char>>,
    names: Seq<Seq<char>>,
    path: Seq<char>,
)
    requires
        c.tasks.len() > 0,
        c.tasks[0] is Workflows,
    ensures
        collector_step(c, contents, names) matches Ok(next) && next.context == c.context && c.tasks.skip(
            1,
        ).is_suffix_of(next.tasks) && (workflows_in_files(c.context.files).contains(path)
            <==> next.tasks.take(next.tasks.len() - c.tasks.len() + 1).contains(
            TaskView::Further { path },
        )),
{
    let found = workflows_in_files(c.context.files);
    let set = ordered_set(found);
    let next = collector_step(c, contents, names)->Ok_0;
    let tasks = further_tasks(set);
    assert(next.tasks.subrange(
        next.tasks.len() - c.tasks.skip(1).len(),
        next.tasks.len() as int,
    ) =~= c.tasks.skip(1));
    assert(next.tasks.take(next.tasks.len() - c.tasks.len() + 1) =~= tasks);
    crate::order::law_ordered_set(found);
    lemma_further_tasks(set, path);
}

proof fn lemma_further_tasks(paths: Seq<Seq<char>>, path: Seq<char>)
    ensures
        paths.contains(path) <==> further_tasks(paths).contains(TaskView::Further { path }),
{
    if paths.contains(path) {
        let i = choose|i: int| 0 <= i < paths.len() && paths[i] == path;
        assert(further_tasks(paths)[i] == (TaskView::Further { path }));
    }
    if further_tasks(paths).contains(TaskView::Further { path }) {
        let i = choose|i: int|
            0 <= i < paths.len() && further_tasks(paths)[i] == (TaskView::Further { path });
        assert(paths[i] == path);
    }
}

/// Tests are looked for beside every changed file, in their order, exactly if there is room.
pub proof fn law_tests_are_looked_for(
    c: CollectorView,
    contents: Option<Seq<char>>,
    names: Seq<Seq<char>>,
)
    requires
        c.tasks.len() > 0,
        c.tasks[0] is Tests,
    ensures
        no_room(c.context) ==> (collector_step(c, contents, names) matches Ok(next) && next.tasks
            == c.tasks.skip(1)),
        !no_room(c.context) ==> (collector_step(c, contents, names) matches Ok(next)
            && next.tasks.len() == c.changed_files.len() + c.tasks.len() - 1 && forall|i: int|
            0 <= i < c.changed_files.len() ==> #[trigger] next.tasks[i] == (TaskView::Beside {
                path: c.changed_files[i],
            })),
{
}

/// A directory is looked into once: after it was, it is not new for any file in it.
pub proof fn law_directories_are_looked_into_once(
    c: CollectorView,
    contents: Option<Seq<char>>,
    names: Seq<Seq<char>>,
    path: Seq<char>,
    other: Seq<char>,
)
    requires
        c.tasks.len() > 0,
        c.tasks[0] == (TaskView::Beside { path }),
        parent_of(other) == parent_of(path),
    ensures
        collector_step(c, contents, names) matches Ok(next) ==> (new_directory(c, path) is Some
            ==> new_directory(next, other) is None),
        new_directory(c, path) matches Some(directory) ==> request_of(c) == (RequestView::List {
            directory,
        }) && parent_of(path) == Some(directory) && safe_relative(path),
        new_directory(c, path) is None ==> request_of(c) is Nothing,
{
    if let Some(directory) = new_directory(c, path) {
        let next = collector_step(c, contents, names)->Ok_0;
        assert(next.scanned.last() == directory_key(directory));
    }
}

/// A test in a directory that is looked into is read next, in the directory, and nothing
/// but its tests is.
pub proof fn law_tests_of_a_directory_are_read(
    directory: Seq<char>,
    names: Seq<Seq<char>>,
    path: Seq<char>,
)
    ensures
        tests_in(directory, names).contains(path) <==> exists|n: Seq<char>|
            #[trigger] test_names(names).contains(n) && path == in_repository(directory, n),
{
    let set = ordered_set(test_names(names));
    let found = tests_in(directory, names);
    crate::order::law_ordered_set(test_names(names));
    if found.contains(path) {
        let i = choose|i: int| 0 <= i < found.len() && found[i] == path;
        assert(path == in_repository(directory, set[i]));
        assert(set.contains(set[i]));
        assert(test_names(names).contains(set[i]));
    }
    if exists|n: Seq<char>|
        #[trigger] test_names(names).contains(n) && path == in_repository(directory, n) {
        let n = choose|n: Seq<char>|
            #[trigger] test_names(names).contains(n) && path == in_repository(directory, n);
        assert(set.contains(n));
        let i = choose|i: int| 0 <= i < set.len() && set[i] == n;
        assert(found[i] == path);
    }
}

} // verus!
