//! What a workflow file declares: its triggers and the permissions of its jobs.
use vstd::prelude::*;

use crate::bytes::{byte_len, counted_bytes};
use crate::split::{
    blank, is_blank, lines, lines_of, skip_space, split, split_at_char, trim, trim_end,
    trim_end_of, trim_start, trim_start_of, trimmed,
};
use crate::text::{
    after_prefix, chars_of, concat2, contains, ends_with, has_text, same_text, starts_with,
    strip_prefix, text_of, views,
};

verus! {

/// How many bytes of white space a line begins with.
pub open spec fn indent_of(line: Seq<char>) -> nat {
    counted_bytes(line.take(skip_space(line, 0)))
}

/// How many bytes of white space a line begins with.
pub fn yaml_indent(line: &str) -> (r: usize)
    ensures
        r == indent_of(line@),
{
    let v = chars_of(line);
    let rest = trim_start(line);
    let m: usize = chars_of(rest.as_str()).len();
    proof {
        crate::split::lemma_skip_space_bounds(line@, 0);
    }
    let head = text_of(&v, 0, v.len() - m);
    proof {
        assert(head@ =~= line@.take(skip_space(line@, 0)));
    }
    byte_len(head.as_str())
}

/// A line before its first number sign.
pub open spec fn before_hash(line: Seq<char>) -> Seq<char> {
    split_at_char(line, '#')[0]
}

/// A line before its first number sign.
pub fn without_hash(line: &str) -> (r: String)
    ensures
        r@ == before_hash(line@),
{
    let fields = split(line, '#');
    proof {
        assert(views(fields@)[0] == fields@[0]@);
    }
    fields[0].clone()
}

/// The text without the given characters at its start.
pub open spec fn trim_front(s: Seq<char>, set: Seq<char>) -> Seq<char>
    decreases s.len(),
{
    if s.len() > 0 && set.contains(s[0]) {
        trim_front(s.skip(1), set)
    } else {
        s
    }
}

/// The text without the given characters at its end.
pub open spec fn trim_back(s: Seq<char>, set: Seq<char>) -> Seq<char>
    decreases s.len(),
{
    if s.len() > 0 && set.contains(s.last()) {
        trim_back(s.drop_last(), set)
    } else {
        s
    }
}

/// The text without the given characters around it.
pub open spec fn trim_around(s: Seq<char>, set: Seq<char>) -> Seq<char> {
    trim_back(trim_front(s, set), set)
}

/// The text without the given characters around it.
pub fn trim_chars(s: &str, set: &str) -> (r: String)
    ensures
        r@ == trim_around(s@, set@),
{
    let v = chars_of(s);
    let mut a: usize = 0;
    proof {
        assert(v@.skip(0) =~= v@);
    }
    while a < v.len() && crate::text::has_char(set, v[a])
        invariant
            a <= v@.len(),
            v@ == s@,
            trim_front(s@, set@) == trim_front(v@.skip(a as int), set@),
        decreases v@.len() - a,
    {
        proof {
            assert(v@.skip(a as int)[0] == v@[a as int]);
            assert(v@.skip(a as int).skip(1) =~= v@.skip(a + 1));
        }
        a += 1;
    }
    let ghost rest = v@.skip(a as int);
    proof {
        if a < v@.len() {
            assert(rest[0] == v@[a as int]);
        }
        assert(rest.take(rest.len() as int) =~= rest);
    }
    let mut b: usize = v.len();
    while b > a && crate::text::has_char(set, v[b - 1])
        invariant
            a <= b <= v@.len(),
            rest == v@.skip(a as int),
            trim_back(rest, set@) == trim_back(rest.take(b - a), set@),
        decreases b,
    {
        proof {
            assert(rest.take(b - a).last() == v@[b - 1]);
            assert(rest.take(b - a).drop_last() =~= rest.take(b - a - 1));
        }
        b -= 1;
    }
    proof {
        if b > a {
            assert(rest.take(b - a).last() == v@[b - 1]);
        }
        assert(v@.subrange(a as int, b as int) =~= rest.take(b - a));
    }
    text_of(&v, a, b)
}

/// One of the entries of a list with commas is this one.
pub open spec fn lists(list: Seq<char>, entry: Seq<char>) -> bool {
    exists|k: int|
        0 <= k < split_at_char(list, ',').len() && trimmed(
            #[trigger] split_at_char(list, ',')[k],
        ) == entry
}

/// Whether one of the entries of a list with commas is this one.
pub fn list_has(list: &str, entry: &str) -> (r: bool)
    ensures
        r == lists(list@, entry@),
{
    let fields = split(list, ',');
    let ghost all = views(fields@);
    let mut i: usize = 0;
    while i < fields.len()
        invariant
            i <= fields@.len(),
            all == views(fields@),
            all == split_at_char(list@, ','),
            forall|k: int| 0 <= k < i ==> trimmed(#[trigger] all[k]) != entry@,
        decreases fields@.len() - i,
    {
        proof {
            assert(all[i as int] == fields@[i as int]@);
        }
        let t = trim(fields[i].as_str());
        if same_text(t.as_str(), entry) {
            return true;
        }
        i += 1;
    }
    false
}

// ---------------------------------------------------------------------------
// Triggers
// ---------------------------------------------------------------------------

/// A line at the left margin that declares the trigger itself.
pub open spec fn declares_inline(line: Seq<char>, trigger: Seq<char>) -> bool {
    line == "on: "@ + trigger || ("on: ["@.is_prefix_of(line) && lists(
        trim_around(line.skip(3), " []"@),
        trigger,
    ))
}

/// The lines from `from` on declare the trigger; `in_mapping` says that the lines before
/// opened a mapping of triggers.
pub open spec fn declares_from(
    lines: Seq<Seq<char>>,
    trigger: Seq<char>,
    in_mapping: bool,
    from: int,
) -> bool
    decreases lines.len() - from,
{
    if from < 0 || from >= lines.len() {
        false
    } else {
        let content = before_hash(lines[from]);
        let line = trimmed(content);
        if line.len() == 0 {
            declares_from(lines, trigger, in_mapping, from + 1)
        } else if indent_of(content) == 0 {
            declares_inline(line, trigger) || declares_from(
                lines,
                trigger,
                line == "on:"@,
                from + 1,
            )
        } else {
            (in_mapping && indent_of(content) == 2 && line == trigger + ":"@) || declares_from(
                lines,
                trigger,
                in_mapping,
                from + 1,
            )
        }
    }
}

fn is_declared_inline(line: &str, trigger: &str) -> (r: bool)
    ensures
        r == declares_inline(line@, trigger@),
{
    let scalar = concat2("on: ", trigger);
    if same_text(line, scalar.as_str()) {
        return true;
    }
    if !starts_with(line, "on: [") {
        return false;
    }
    let v = chars_of(line);
    proof {
        reveal_strlit("on: [");
        assert(line@.len() >= 5);
    }
    let rest = text_of(&v, 3, v.len());
    let inner = trim_chars(rest.as_str(), " []");
    list_has(inner.as_str(), trigger)
}

/// Whether a workflow declares a trigger: as a scalar, in a list or in a mapping.
pub fn workflow_declares_trigger(source: &str, trigger: &str) -> (r: bool)
    ensures
        r == declares_from(lines_of(source@), trigger@, false, 0),
{
    let all = lines(source);
    let ghost seen = views(all@);
    let key = concat2(trigger, ":");
    let mut in_mapping = false;
    let mut i: usize = 0;
    while i < all.len()
        invariant
            i <= all@.len(),
            seen == views(all@),
            seen.len() == all@.len(),
            seen == lines_of(source@),
            key@ == trigger@ + ":"@,
            declares_from(seen, trigger@, false, 0) == declares_from(
                seen,
                trigger@,
                in_mapping,
                i as int,
            ),
        decreases all@.len() - i,
    {
        proof {
            assert(seen[i as int] == all@[i as int]@);
        }
        let content = without_hash(all[i].as_str());
        let line = trim(content.as_str());
        if !line.as_str().is_empty() {
            let indent: usize = yaml_indent(content.as_str());
            if indent == 0 {
                if is_declared_inline(line.as_str(), trigger) {
                    return true;
                }
                in_mapping = same_text(line.as_str(), "on:");
            } else if in_mapping && indent == 2 && same_text(line.as_str(), key.as_str()) {
                return true;
            }
        }
        i += 1;
    }
    false
}

// ---------------------------------------------------------------------------
// Permissions
// ---------------------------------------------------------------------------

/// A line that opens the permissions of the level.
pub open spec fn opens_permissions(line: Seq<char>, parent_indent: nat) -> bool {
    indent_of(line) == parent_indent && "permissions:"@.is_prefix_of(
        trim_start_of(before_hash(line)),
    )
}

/// The lines from `from` on grant the permission below the level.
pub open spec fn nested_grant(
    lines: Seq<Seq<char>>,
    parent_indent: nat,
    permission: Seq<char>,
    from: int,
) -> bool
    decreases lines.len() - from,
{
    if from < 0 || from >= lines.len() {
        false
    } else {
        let content = trimmed(before_hash(lines[from]));
        if content.len() == 0 {
            nested_grant(lines, parent_indent, permission, from + 1)
        } else if indent_of(lines[from]) <= parent_indent {
            false
        } else {
            content == permission + ": write"@ || nested_grant(
                lines,
                parent_indent,
                permission,
                from + 1,
            )
        }
    }
}

/// What stands behind the word on a line that opens permissions.
pub open spec fn permissions_value(line: Seq<char>) -> Seq<char> {
    match after_prefix(trimmed(before_hash(line)), "permissions:"@) {
        Some(rest) => trimmed(rest),
        None => Seq::empty(),
    }
}

/// The permissions that the line at `at` opens grant the permission.
pub open spec fn grants_at(
    lines: Seq<Seq<char>>,
    parent_indent: nat,
    permission: Seq<char>,
    at: int,
) -> bool {
    let value = permissions_value(lines[at]);
    value == "write-all"@ || ("{"@.is_prefix_of(value) && lists(
        trim_around(value, "{} "@),
        permission + ": write"@,
    )) || nested_grant(lines, parent_indent, permission, at + 1)
}

/// The first permissions of the level at or behind `from` grant the permission.
pub open spec fn grants_from(
    lines: Seq<Seq<char>>,
    parent_indent: nat,
    permission: Seq<char>,
    from: int,
) -> bool
    decreases lines.len() - from,
{
    if from < 0 || from >= lines.len() {
        false
    } else if opens_permissions(lines[from], parent_indent) {
        grants_at(lines, parent_indent, permission, from)
    } else {
        grants_from(lines, parent_indent, permission, from + 1)
    }
}

fn grants_nested(
    lines: &Vec<String>,
    parent_indent: usize,
    entry: &str,
    permission: &str,
    from: usize,
) -> (r: bool)
    requires
        entry@ == permission@ + ": write"@,
        from <= lines@.len(),
    ensures
        r == nested_grant(views(lines@), parent_indent as nat, permission@, from as int),
{
    let ghost seen = views(lines@);
    let mut i: usize = from;
    while i < lines.len()
        invariant
            from <= i <= lines@.len(),
            seen == views(lines@),
            seen.len() == lines@.len(),
            entry@ == permission@ + ": write"@,
            nested_grant(seen, parent_indent as nat, permission@, from as int) == nested_grant(
                seen,
                parent_indent as nat,
                permission@,
                i as int,
            ),
        decreases lines@.len() - i,
    {
        proof {
            assert(seen[i as int] == lines@[i as int]@);
        }
        let before = without_hash(lines[i].as_str());
        let content = trim(before.as_str());
        if !content.as_str().is_empty() {
            if yaml_indent(lines[i].as_str()) <= parent_indent {
                return false;
            }
            if same_text(content.as_str(), entry) {
                return true;
            }
        }
        i += 1;
    }
    false
}

/// Whether the first permissions of the level grant the permission: all of them, in a
/// mapping on the line, or in the lines below it.
pub fn permission_block_grants(
    lines: &Vec<String>,
    parent_indent: usize,
    permission: &str,
) -> (r: bool)
    ensures
        r == grants_from(views(lines@), parent_indent as nat, permission@, 0),
{
    let ghost seen = views(lines@);
    let entry = concat2(permission, ": write");
    let mut i: usize = 0;
    while i < lines.len()
        invariant
            i <= lines@.len(),
            seen == views(lines@),
            seen.len() == lines@.len(),
            entry@ == permission@ + ": write"@,
            grants_from(seen, parent_indent as nat, permission@, 0) == grants_from(
                seen,
                parent_indent as nat,
                permission@,
                i as int,
            ),
        decreases lines@.len() - i,
    {
        proof {
            assert(seen[i as int] == lines@[i as int]@);
        }
        let content = without_hash(lines[i].as_str());
        let start = trim_start(content.as_str());
        if yaml_indent(lines[i].as_str()) == parent_indent && starts_with(
            start.as_str(),
            "permissions:",
        ) {
            let inline = trim(content.as_str());
            let value = match strip_prefix(inline.as_str(), "permissions:") {
                Some(rest) => trim(rest.as_str()),
                None => String::new(),
            };
            proof {
                assert(value@ == permissions_value(seen[i as int]));
            }
            if same_text(value.as_str(), "write-all") {
                return true;
            }
            if starts_with(value.as_str(), "{") {
                let inner = trim_chars(value.as_str(), "{} ");
                if list_has(inner.as_str(), entry.as_str()) {
                    return true;
                }
            }
            return grants_nested(lines, parent_indent, entry.as_str(), permission, i + 1);
        }
        i += 1;
    }
    false
}

// ---------------------------------------------------------------------------
// Jobs
// ---------------------------------------------------------------------------

/// A line that ends the jobs: something at the left margin.
pub open spec fn at_margin(line: Seq<char>) -> bool {
    indent_of(line) == 0 && !blank(line)
}

/// A line that could open a job.
pub open spec fn job_line(line: Seq<char>) -> bool {
    indent_of(line) == 2 && ":"@.is_suffix_of(trim_end_of(line))
}

/// A line at which the job before it ends.
pub open spec fn ends_job(line: Seq<char>) -> bool {
    (job_line(line) && !"-"@.is_prefix_of(trim_start_of(line))) || at_margin(line)
}

/// The first line at or behind `from` at which a job ends.
pub open spec fn job_end(lines: Seq<Seq<char>>, from: int) -> int
    decreases lines.len() - from,
{
    if 0 <= from < lines.len() && !ends_job(lines[from]) {
        job_end(lines, from + 1)
    } else {
        from
    }
}

/// One of the lines holds the text.
pub open spec fn some_line_has(lines: Seq<Seq<char>>, text: Seq<char>) -> bool {
    exists|k: int| 0 <= k < lines.len() && has_text(#[trigger] lines[k], text)
}

/// A job that declares permissions of its own.
pub open spec fn declares_permissions(job: Seq<Seq<char>>) -> bool {
    exists|k: int|
        0 <= k < job.len() && indent_of(#[trigger] job[k]) == 4 && "permissions:"@.is_prefix_of(
            trim_start_of(job[k]),
        )
}

/// A job has the permission: by its own permissions, or where it has none by those of the
/// workflow.
pub open spec fn job_granted(job: Seq<Seq<char>>, workflow: bool, permission: Seq<char>) -> bool {
    if declares_permissions(job) {
        grants_from(job, 4, permission, 0)
    } else {
        workflow
    }
}

/// Of the jobs at or behind `from` all with the marker have the permission, and one has
/// the marker or `seen` says that one before did.
pub open spec fn jobs_granted(
    lines: Seq<Seq<char>>,
    permission: Seq<char>,
    marker: Seq<char>,
    workflow: bool,
    seen: bool,
    from: int,
) -> bool
    decreases lines.len() - from,
{
    if from < 0 || from >= lines.len() || at_margin(lines[from]) {
        seen
    } else if !job_line(lines[from]) {
        jobs_granted(lines, permission, marker, workflow, seen, from + 1)
    } else {
        let end = job_end(lines, from + 1);
        let job = lines.subrange(from, end);
        if from < end <= lines.len() {
            if !some_line_has(job, marker) {
                jobs_granted(lines, permission, marker, workflow, seen, end)
            } else {
                job_granted(job, workflow, permission) && jobs_granted(
                    lines,
                    permission,
                    marker,
                    workflow,
                    true,
                    end,
                )
            }
        } else {
            seen
        }
    }
}

/// The line that opens the jobs, at or behind `from`.
pub open spec fn jobs_line(lines: Seq<Seq<char>>, from: int) -> Option<int>
    decreases lines.len() - from,
{
    if from < 0 || from >= lines.len() {
        None
    } else if indent_of(lines[from]) == 0 && trimmed(lines[from]) == "jobs:"@ {
        Some(from)
    } else {
        jobs_line(lines, from + 1)
    }
}

/// Every job with the marker has write access for the permission, and there is one.
pub open spec fn effective_write(
    source: Seq<char>,
    permission: Seq<char>,
    marker: Seq<char>,
) -> bool {
    let all = lines_of(source);
    match jobs_line(all, 0) {
        Some(at) => jobs_granted(
            all,
            permission,
            marker,
            grants_from(all, 0, permission, 0),
            false,
            at + 1,
        ),
        None => false,
    }
}

fn is_at_margin(line: &str) -> (r: bool)
    ensures
        r == at_margin(line@),
{
    yaml_indent(line) == 0 && !is_blank(line)
}

fn is_job_line(line: &str) -> (r: bool)
    ensures
        r == job_line(line@),
{
    if yaml_indent(line) != 2 {
        return false;
    }
    let t = trim_end(line);
    ends_with(t.as_str(), ":")
}

fn is_job_end(line: &str) -> (r: bool)
    ensures
        r == ends_job(line@),
{
    if is_job_line(line) {
        let t = trim_start(line);
        if !starts_with(t.as_str(), "-") {
            return true;
        }
    }
    is_at_margin(line)
}

fn any_line_has(lines: &Vec<String>, text: &str) -> (r: bool)
    ensures
        r == some_line_has(views(lines@), text@),
{
    let ghost seen = views(lines@);
    let mut i: usize = 0;
    while i < lines.len()
        invariant
            i <= lines@.len(),
            seen == views(lines@),
            forall|k: int| 0 <= k < i ==> !has_text(#[trigger] seen[k], text@),
        decreases lines@.len() - i,
    {
        proof {
            assert(seen[i as int] == lines@[i as int]@);
        }
        if contains(lines[i].as_str(), text) {
            return true;
        }
        i += 1;
    }
    false
}

fn has_permissions(job: &Vec<String>) -> (r: bool)
    ensures
        r == declares_permissions(views(job@)),
{
    let ghost seen = views(job@);
    let mut i: usize = 0;
    while i < job.len()
        invariant
            i <= job@.len(),
            seen == views(job@),
            forall|k: int|
                0 <= k < i ==> !(indent_of(#[trigger] seen[k]) == 4 && "permissions:"@.is_prefix_of(
                    trim_start_of(seen[k]),
                )),
        decreases job@.len() - i,
    {
        proof {
            assert(seen[i as int] == job@[i as int]@);
        }
        if yaml_indent(job[i].as_str()) == 4 {
            let t = trim_start(job[i].as_str());
            if starts_with(t.as_str(), "permissions:") {
                return true;
            }
        }
        i += 1;
    }
    false
}

/// Whether every job with the marker has write access for the permission, and there is one.
pub fn workflow_has_effective_write_for_step(
    source: &str,
    permission: &str,
    step_marker: &str,
) -> (r: bool)
    ensures
        r == effective_write(source@, permission@, step_marker@),
{
    let all = lines(source);
    let ghost seen = views(all@);
    let workflow = permission_block_grants(&all, 0, permission);
    let mut at: usize = 0;
    let mut found = false;
    proof {
        assert(seen.len() == all@.len());
    }
    while at < all.len() && !found
        invariant
            at <= all@.len(),
            seen == views(all@),
            seen.len() == all@.len(),
            found ==> at < all@.len() && jobs_line(seen, 0) == Some(at as int),
            !found ==> jobs_line(seen, 0) == jobs_line(seen, at as int),
        decreases all@.len() - at, if found {
            0int
        } else {
            1int
        },
    {
        proof {
            assert(seen[at as int] == all@[at as int]@);
        }
        let t = trim(all[at].as_str());
        if yaml_indent(all[at].as_str()) == 0 && same_text(t.as_str(), "jobs:") {
            found = true;
        } else {
            at += 1;
        }
    }
    if !found {
        return false;
    }
    let mut index: usize = at + 1;
    let mut matched = false;
    let ghost whole = effective_write(source@, permission@, step_marker@);
    while index < all.len()
        invariant
            index <= all@.len(),
            seen == views(all@),
            seen.len() == all@.len(),
            whole == effective_write(source@, permission@, step_marker@),
            whole == jobs_granted(
                seen,
                permission@,
                step_marker@,
                workflow,
                matched,
                index as int,
            ),
            workflow == grants_from(seen, 0, permission@, 0),
        ensures
            whole == matched,
        decreases all@.len() - index,
    {
        proof {
            assert(seen[index as int] == all@[index as int]@);
        }
        let line = all[index].as_str();
        if is_at_margin(line) {
            break;
        }
        if !is_job_line(line) {
            index += 1;
        } else {
            let start: usize = index;
            index += 1;
            while index < all.len() && !is_job_end(all[index].as_str())
                invariant
                    start < index <= all@.len(),
                    seen == views(all@),
                    seen.len() == all@.len(),
                    job_end(seen, start + 1) == job_end(seen, index as int),
                decreases all@.len() - index,
            {
                proof {
                    assert(seen[index as int] == all@[index as int]@);
                }
                index += 1;
            }
            proof {
                if index < all@.len() {
                    assert(seen[index as int] == all@[index as int]@);
                }
            }
            let job = crate::excerpts::texts_between(&all, start, index);
            if any_line_has(&job, step_marker) {
                let granted = if has_permissions(&job) {
                    permission_block_grants(&job, 4, permission)
                } else {
                    workflow
                };
                if !granted {
                    return false;
                }
                matched = true;
            }
        }
    }
    matched
}

// ---------------------------------------------------------------------------
// What holds of it
// ---------------------------------------------------------------------------

/// A workflow that names a trigger behind `on:` on a line of its own at the margin declares
/// it, wherever the line stands.
pub proof fn law_triggers_on_a_line_are_declared(
    lines: Seq<Seq<char>>,
    trigger: Seq<char>,
    in_mapping: bool,
    from: int,
    i: int,
)
    requires
        0 <= from <= i < lines.len(),
        indent_of(before_hash(lines[i])) == 0,
        trimmed(before_hash(lines[i])) == "on: "@ + trigger,
    ensures
        declares_from(lines, trigger, in_mapping, from),
    decreases i - from,
{
    reveal_strlit("on: ");
    assert(trimmed(before_hash(lines[i])).len() > 0);
    if from < i {
        let content = before_hash(lines[from]);
        let line = trimmed(content);
        if line.len() == 0 || indent_of(content) != 0 {
            law_triggers_on_a_line_are_declared(lines, trigger, in_mapping, from + 1, i);
        } else {
            law_triggers_on_a_line_are_declared(lines, trigger, line == "on:"@, from + 1, i);
        }
    }
}

/// A trigger is declared only by a line of the workflow that names it, behind `on:` at the
/// margin or as a key two deep.
pub proof fn law_declared_triggers_are_named(
    lines: Seq<Seq<char>>,
    trigger: Seq<char>,
    in_mapping: bool,
    from: int,
)
    requires
        declares_from(lines, trigger, in_mapping, from),
    ensures
        exists|i: int|
            from <= i < lines.len() && ({
                let content = before_hash(#[trigger] lines[i]);
                ||| indent_of(content) == 0 && trimmed(content) == "on: "@ + trigger
                ||| indent_of(content) == 0 && "on: ["@.is_prefix_of(trimmed(content))
                ||| indent_of(content) == 2 && trimmed(content) == trigger + ":"@
            }),
    decreases lines.len() - from,
{
    let content = before_hash(lines[from]);
    let line = trimmed(content);
    if line.len() == 0 {
        law_declared_triggers_are_named(lines, trigger, in_mapping, from + 1);
    } else if indent_of(content) == 0 {
        if declares_inline(line, trigger) {
            assert(line == "on: "@ + trigger || "on: ["@.is_prefix_of(line));
        } else {
            law_declared_triggers_are_named(lines, trigger, line == "on:"@, from + 1);
        }
    } else {
        if !(in_mapping && indent_of(content) == 2 && line == trigger + ":"@) {
            law_declared_triggers_are_named(lines, trigger, in_mapping, from + 1);
        }
    }
}

/// Under `on:` at the margin, a key two deep declares its trigger, up to the next line at
/// the margin.
pub proof fn law_triggers_under_on_are_declared(
    lines: Seq<Seq<char>>,
    trigger: Seq<char>,
    from: int,
    i: int,
)
    requires
        0 <= from <= i < lines.len(),
        indent_of(before_hash(lines[i])) == 2,
        trimmed(before_hash(lines[i])) == trigger + ":"@,
        forall|j: int|
            from <= j < i ==> trimmed(before_hash(#[trigger] lines[j])).len() == 0 || indent_of(
                before_hash(lines[j]),
            ) > 0,
    ensures
        declares_from(lines, trigger, true, from),
    decreases i - from,
{
    reveal_strlit(":");
    if from < i {
        assert(trimmed(before_hash(lines[from])).len() == 0 || indent_of(before_hash(lines[from]))
            > 0);
        law_triggers_under_on_are_declared(lines, trigger, from + 1, i);
    }
}

/// A block of permissions grants what a line in it says, before the block ends; it grants
/// nothing that no line says.
pub proof fn law_nested_permissions(
    lines: Seq<Seq<char>>,
    parent_indent: nat,
    permission: Seq<char>,
    from: int,
)
    requires
        0 <= from,
    ensures
        nested_grant(lines, parent_indent, permission, from) <==> exists|i: int|
            from <= i < lines.len() && trimmed(before_hash(#[trigger] lines[i])) == permission
                + ": write"@ && forall|j: int|
                from <= j <= i ==> trimmed(before_hash(#[trigger] lines[j])).len() == 0
                    || indent_of(lines[j]) > parent_indent,
    decreases lines.len() - from,
{
    reveal_strlit(": write");
    if from < lines.len() {
        let content = trimmed(before_hash(lines[from]));
        law_nested_permissions(lines, parent_indent, permission, from + 1);
        if content.len() == 0 || indent_of(lines[from]) > parent_indent {
            if content == permission + ": write"@ && content.len() > 0 {
                assert(trimmed(before_hash(lines[from])) == permission + ": write"@);
            } else if nested_grant(lines, parent_indent, permission, from + 1) {
                let i = choose|i: int|
                    from + 1 <= i < lines.len() && trimmed(before_hash(#[trigger] lines[i]))
                        == permission + ": write"@ && forall|j: int|
                        from + 1 <= j <= i ==> trimmed(before_hash(#[trigger] lines[j])).len() == 0
                            || indent_of(lines[j]) > parent_indent;
                assert(trimmed(before_hash(lines[i])) == permission + ": write"@);
                assert forall|j: int| from <= j <= i implies trimmed(
                    before_hash(#[trigger] lines[j]),
                ).len() == 0 || indent_of(lines[j]) > parent_indent by {}
            }
            if exists|i: int|
                from <= i < lines.len() && trimmed(before_hash(#[trigger] lines[i])) == permission
                    + ": write"@ && forall|j: int|
                    from <= j <= i ==> trimmed(before_hash(#[trigger] lines[j])).len() == 0
                        || indent_of(lines[j]) > parent_indent {
                let i = choose|i: int|
                    from <= i < lines.len() && trimmed(before_hash(#[trigger] lines[i]))
                        == permission + ": write"@ && forall|j: int|
                        from <= j <= i ==> trimmed(before_hash(#[trigger] lines[j])).len() == 0
                            || indent_of(lines[j]) > parent_indent;
                if i > from {
                    assert(trimmed(before_hash(lines[i])) == permission + ": write"@);
                }
            }
        } else {
            assert forall|i: int|
                from <= i < lines.len() && trimmed(before_hash(#[trigger] lines[i])) == permission
                    + ": write"@ implies !(forall|j: int|
                from <= j <= i ==> trimmed(before_hash(#[trigger] lines[j])).len() == 0
                    || indent_of(lines[j]) > parent_indent) by {
                assert(!(trimmed(before_hash(lines[from])).len() == 0 || indent_of(lines[from])
                    > parent_indent));
            }
        }
    }
}

/// The first block of permissions decides alone.
pub proof fn law_the_first_permissions_decide(
    lines: Seq<Seq<char>>,
    parent_indent: nat,
    permission: Seq<char>,
    from: int,
    i: int,
)
    requires
        0 <= from <= i < lines.len(),
        opens_permissions(lines[i], parent_indent),
        forall|j: int| from <= j < i ==> !opens_permissions(#[trigger] lines[j], parent_indent),
    ensures
        grants_from(lines, parent_indent, permission, from) == grants_at(
            lines,
            parent_indent,
            permission,
            i,
        ),
        permissions_value(lines[i]) == "write-all"@ ==> grants_from(
            lines,
            parent_indent,
            permission,
            from,
        ),
        nested_grant(lines, parent_indent, permission, i + 1) ==> grants_from(
            lines,
            parent_indent,
            permission,
            from,
        ),
    decreases i - from,
{
    if from < i {
        assert(!opens_permissions(lines[from], parent_indent));
        law_the_first_permissions_decide(lines, parent_indent, permission, from + 1, i);
    }
}

/// Without a block of permissions nothing is granted.
pub proof fn law_no_permissions_no_grant(
    lines: Seq<Seq<char>>,
    parent_indent: nat,
    permission: Seq<char>,
    from: int,
)
    requires
        0 <= from,
        forall|j: int|
            from <= j < lines.len() ==> !opens_permissions(#[trigger] lines[j], parent_indent),
    ensures
        !grants_from(lines, parent_indent, permission, from),
    decreases lines.len() - from,
{
    if from < lines.len() {
        assert(!opens_permissions(lines[from], parent_indent));
        law_no_permissions_no_grant(lines, parent_indent, permission, from + 1);
    }
}

/// A job that declares permissions has those alone; any other has those of the workflow.
pub proof fn law_jobs_override_the_workflow(
    job: Seq<Seq<char>>,
    permission: Seq<char>,
)
    ensures
        declares_permissions(job) ==> job_granted(job, true, permission) == job_granted(
            job,
            false,
            permission,
        ) && job_granted(job, true, permission) == grants_from(job, 4, permission, 0),
        !declares_permissions(job) ==> job_granted(job, true, permission) && !job_granted(
            job,
            false,
            permission,
        ),
{
}

/// A workflow without jobs grants no step anything.
pub proof fn law_no_jobs_no_grant(source: Seq<char>, permission: Seq<char>, marker: Seq<char>)
    requires
        forall|i: int|
            0 <= i < lines_of(source).len() ==> trimmed(#[trigger] lines_of(source)[i])
                != "jobs:"@,
    ensures
        !effective_write(source, permission, marker),
{
    lemma_no_jobs(lines_of(source), 0);
}

proof fn lemma_no_jobs(lines: Seq<Seq<char>>, from: int)
    requires
        0 <= from,
        forall|i: int| 0 <= i < lines.len() ==> trimmed(#[trigger] lines[i]) != "jobs:"@,
    ensures
        jobs_line(lines, from) is None,
    decreases lines.len() - from,
{
    if from < lines.len() {
        assert(trimmed(lines[from]) != "jobs:"@);
        lemma_no_jobs(lines, from + 1);
    }
}

/// A step has a permission only where some job has the step: without the marker in any
/// line, nothing is granted.
pub proof fn law_grants_are_of_jobs_with_the_step(
    lines: Seq<Seq<char>>,
    permission: Seq<char>,
    marker: Seq<char>,
    workflow: bool,
    from: int,
)
    requires
        forall|i: int| 0 <= i < lines.len() ==> !has_text(#[trigger] lines[i], marker),
    ensures
        !jobs_granted(lines, permission, marker, workflow, false, from),
    decreases lines.len() - from,
{
    if 0 <= from < lines.len() && !at_margin(lines[from]) {
        if !job_line(lines[from]) {
            law_grants_are_of_jobs_with_the_step(lines, permission, marker, workflow, from + 1);
        } else {
            let end = job_end(lines, from + 1);
            let job = lines.subrange(from, end);
            if from < end <= lines.len() {
                assert(!some_line_has(job, marker)) by {
                    if some_line_has(job, marker) {
                        let k = choose|k: int|
                            0 <= k < job.len() && has_text(#[trigger] job[k], marker);
                        assert(lines[from + k] == job[k]);
                    }
                }
                law_grants_are_of_jobs_with_the_step(lines, permission, marker, workflow, end);
            }
        }
    }
}

/// What stands before a hash is what is read of a line.
pub proof fn law_hashes_start_comments(line: Seq<char>, comment: Seq<char>)
    requires
        !line.contains('#'),
    ensures
        before_hash(line) == line,
        before_hash(line + seq!['#'] + comment) == line,
{
    crate::split::law_fields(line, comment, '#');
}

/// A list holds exactly its entries, trimmed, between its commas.
pub proof fn law_listed_entries(entry: Seq<char>, rest: Seq<char>, other: Seq<char>)
    requires
        !entry.contains(','),
    ensures
        lists(entry, other) <==> other == trimmed(entry),
        lists(entry + seq![','] + rest, other) <==> other == trimmed(entry) || lists(rest, other),
{
    crate::split::law_fields(entry, rest, ',');
    let all = split_at_char(entry + seq![','] + rest, ',');
    let tail = split_at_char(rest, ',');
    assert(split_at_char(entry, ',')[0] == entry);
    if other == trimmed(entry) {
        assert(trimmed(all[0]) == other);
    }
    if lists(rest, other) {
        let k = choose|k: int| 0 <= k < tail.len() && trimmed(#[trigger] tail[k]) == other;
        assert(all[k + 1] == tail[k]);
    }
    if lists(entry + seq![','] + rest, other) {
        let k = choose|k: int| 0 <= k < all.len() && trimmed(#[trigger] all[k]) == other;
        if k > 0 {
            assert(all[k] == tail[k - 1]);
        }
    }
}

/// A job is named on a line of its own, two columns in; a job ends with the next one, or
/// where a line stands at the margin.
pub proof fn law_jobs_are_named_two_columns_in(line: Seq<char>)
    ensures
        job_line(line) ==> indent_of(line) == 2 && trim_end_of(line).len() > 0 && trim_end_of(
            line,
        ).last() == ':',
        indent_of(line) == 2 && trim_end_of(line).len() > 0 && trim_end_of(line).last() == ':'
            ==> job_line(line),
        at_margin(line) ==> ends_job(line),
        job_line(line) && trim_start_of(line).len() > 0 && trim_start_of(line)[0] != '-'
            ==> ends_job(line),
        !job_line(line) && !at_margin(line) ==> !ends_job(line),
{
    reveal_strlit(":");
    reveal_strlit("-");
    let t = trim_end_of(line);
    if t.len() > 0 {
        assert(t.subrange(t.len() - 1, t.len() as int) =~= seq![t.last()]);
        assert(":"@ =~= seq![':']);
        if ":"@.is_suffix_of(t) {
            assert(t.subrange(t.len() - 1, t.len() as int)[0] == ":"@[0]);
        }
    }
    if "-"@.is_prefix_of(trim_start_of(line)) {
        assert(trim_start_of(line).subrange(0, 1)[0] == "-"@[0]);
        assert(trim_start_of(line)[0] == '-');
    }
}

} // verus!
