//! Identifiers that a diff touches.
use vstd::prelude::*;

use crate::number::{parse_unsigned, parse_usize};
use crate::split::{lines, lines_of, split, split_at_char, words, words_of};
use crate::text::{
    after_prefix, chars_of, lower_letter, lowercase, opt_view, same_text, starts_with, strip_prefix,
    text_of, to_lowercase, upper_letter, views,
};

verus! {

/// How many identifiers are searched for at most.
pub const MAX_CHANGED_SYMBOLS: usize = 24;

// ---------------------------------------------------------------------------
// Lines that a diff adds and removes
// ---------------------------------------------------------------------------

/// A line of a file.
#[derive(Debug, PartialEq, Eq)]
pub struct AddedLine {
    pub line: usize,
    pub text: String,
}

impl View for AddedLine {
    type V = (usize, Seq<char>);

    open spec fn view(&self) -> (usize, Seq<char>) {
        (self.line, self.text@)
    }
}

/// What a list of lines says.
pub open spec fn line_views(s: Seq<AddedLine>) -> Seq<(usize, Seq<char>)> {
    s.map_values(|l: AddedLine| l@)
}

/// The added and removed lines of a diff, each with its path, and where on the new
/// side lines were removed.
#[derive(Debug, PartialEq, Eq)]
pub struct ParsedDiffLines {
    pub added: Vec<(String, AddedLine)>,
    pub deleted: Vec<(String, AddedLine)>,
    pub deleted_new_anchors: Vec<(String, usize)>,
}

/// A line with its path.
pub type FileLine = (Seq<char>, (usize, Seq<char>));

/// What lines with their paths say.
pub open spec fn file_line_views(s: Seq<(String, AddedLine)>) -> Seq<FileLine> {
    s.map_values(|l: (String, AddedLine)| (l.0@, l.1@))
}

/// What anchors with their paths say.
pub open spec fn anchor_views(s: Seq<(String, usize)>) -> Seq<(Seq<char>, usize)> {
    s.map_values(|l: (String, usize)| (l.0@, l.1))
}

/// What has been read of a diff.
pub struct ChangeState {
    pub path: Option<Seq<char>>,
    pub old_path: Option<Seq<char>>,
    pub new_line: usize,
    pub old_line: usize,
    pub in_hunk: bool,
    pub added: Seq<FileLine>,
    pub deleted: Seq<FileLine>,
    pub anchors: Seq<(Seq<char>, usize)>,
}

/// The text behind all the leading `c`.
pub open spec fn without_leading(s: Seq<char>, c: char) -> Seq<char>
    decreases s.len(),
{
    if s.len() > 0 && s[0] == c {
        without_leading(s.skip(1), c)
    } else {
        s
    }
}

/// Where a range of a hunk header starts, or zero where it does not say.
pub open spec fn range_first(range: Seq<char>, sign: char) -> usize {
    match parse_unsigned(split_at_char(without_leading(range, sign), ',')[0], usize::MAX as nat) {
        Some(n) => n as usize,
        None => 0,
    }
}

/// The next line number, which follows the largest with zero.
pub open spec fn line_after(n: usize) -> usize {
    if n < usize::MAX {
        (n + 1) as usize
    } else {
        0
    }
}

/// What has been read once `line` is read too.
pub open spec fn change_step(s: ChangeState, line: Seq<char>) -> ChangeState {
    if "--- a/"@.is_prefix_of(line) {
        ChangeState { old_path: after_prefix(line, "--- a/"@), ..s }
    } else if line == "--- /dev/null"@ {
        ChangeState { old_path: None, ..s }
    } else if "+++ b/"@.is_prefix_of(line) {
        ChangeState { path: after_prefix(line, "+++ b/"@), in_hunk: false, ..s }
    } else if line == "+++ /dev/null"@ {
        ChangeState { path: None, in_hunk: false, ..s }
    } else if "@@ "@.is_prefix_of(line) {
        let w = words_of(line);
        if w.len() < 3 {
            ChangeState { in_hunk: false, ..s }
        } else {
            let new_line = range_first(w[2], '+');
            let old_line = range_first(w[1], '-');
            ChangeState { new_line, old_line, in_hunk: new_line > 0 || old_line > 0, ..s }
        }
    } else if !s.in_hunk {
        s
    } else if "+"@.is_prefix_of(line) && !"+++"@.is_prefix_of(line) {
        ChangeState {
            added: match s.path {
                Some(path) => s.added.push((path, (s.new_line, line.skip(1)))),
                None => s.added,
            },
            new_line: line_after(s.new_line),
            ..s
        }
    } else if "-"@.is_prefix_of(line) && !"---"@.is_prefix_of(line) {
        ChangeState {
            deleted: match s.old_path {
                Some(path) => s.deleted.push((path, (s.old_line, line.skip(1)))),
                None => s.deleted,
            },
            anchors: match s.path {
                Some(path) => if s.new_line > 0 {
                    s.anchors.push((path, s.new_line))
                } else {
                    s.anchors
                },
                None => s.anchors,
            },
            old_line: line_after(s.old_line),
            ..s
        }
    } else if !"\\"@.is_prefix_of(line) {
        ChangeState {
            new_line: line_after(s.new_line),
            old_line: line_after(s.old_line),
            ..s
        }
    } else {
        s
    }
}

/// Nothing has been read.
pub open spec fn change_start() -> ChangeState {
    ChangeState {
        path: None,
        old_path: None,
        new_line: 0,
        old_line: 0,
        in_hunk: false,
        added: Seq::empty(),
        deleted: Seq::empty(),
        anchors: Seq::empty(),
    }
}

/// What has been read of a diff with these lines.
pub open spec fn change_state(lines: Seq<Seq<char>>) -> ChangeState
    decreases lines.len(),
{
    if lines.len() == 0 {
        change_start()
    } else {
        change_step(change_state(lines.drop_last()), lines.last())
    }
}

/// The lines that belong to a path.
pub open spec fn lines_in(s: Seq<FileLine>, path: Seq<char>) -> Seq<(usize, Seq<char>)>
    decreases s.len(),
{
    if s.len() == 0 {
        Seq::empty()
    } else if s.last().0 == path {
        lines_in(s.drop_last(), path).push(s.last().1)
    } else {
        lines_in(s.drop_last(), path)
    }
}

fn next_line(n: usize) -> (r: usize)
    ensures
        r == line_after(n),
{
    if n < usize::MAX {
        n + 1
    } else {
        0
    }
}

fn trim_leading(s: &str, c: char) -> (r: String)
    ensures
        r@ == without_leading(s@, c),
{
    let v = chars_of(s);
    let mut i: usize = 0;
    proof {
        assert(v@.skip(0) =~= v@);
    }
    while i < v.len() && v[i] == c
        invariant
            i <= v@.len(),
            v@ == s@,
            without_leading(s@, c) == without_leading(v@.skip(i as int), c),
        decreases v@.len() - i,
    {
        proof {
            assert(v@.skip(i as int)[0] == v@[i as int]);
            assert(v@.skip(i as int).skip(1) =~= v@.skip(i + 1));
        }
        i += 1;
    }
    proof {
        if i < v@.len() {
            assert(v@.skip(i as int)[0] == v@[i as int]);
        }
    }
    text_of(&v, i, v.len())
}

fn first_of_range(range: &str, sign: char) -> (r: usize)
    ensures
        r == range_first(range@, sign),
{
    let body = trim_leading(range, sign);
    let fields = split(body.as_str(), ',');
    proof {
        assert(views(fields@)[0] == fields@[0]@);
    }
    match parse_usize(fields[0].as_str()) {
        Some(n) => n,
        None => 0,
    }
}

fn behind_first(line: &str) -> (r: String)
    requires
        line@.len() > 0,
    ensures
        r@ == line@.skip(1),
{
    let v = chars_of(line);
    text_of(&v, 1, v.len())
}

/// The added and removed lines of a diff.
pub fn parse_diff_lines(diff: &str) -> (r: ParsedDiffLines)
    ensures
        file_line_views(r.added@) == change_state(lines_of(diff@)).added,
        file_line_views(r.deleted@) == change_state(lines_of(diff@)).deleted,
        anchor_views(r.deleted_new_anchors@) == change_state(lines_of(diff@)).anchors,
{
    let all = lines(diff);
    let mut added: Vec<(String, AddedLine)> = Vec::new();
    let mut deleted: Vec<(String, AddedLine)> = Vec::new();
    let mut anchors: Vec<(String, usize)> = Vec::new();
    let mut path: Option<String> = None;
    let mut old_path: Option<String> = None;
    let mut new_line: usize = 0;
    let mut old_line: usize = 0;
    let mut in_hunk = false;
    let mut i: usize = 0;
    proof {
        assert(file_line_views(added@) =~= Seq::empty());
        assert(file_line_views(deleted@) =~= Seq::empty());
        assert(anchor_views(anchors@) =~= Seq::empty());
        assert(views(all@).take(0) =~= Seq::empty());
    }
    while i < all.len()
        invariant
            i <= all@.len(),
            views(all@) == lines_of(diff@),
            ({
                let s = change_state(views(all@).take(i as int));
                &&& s.path == opt_view(path)
                &&& s.old_path == opt_view(old_path)
                &&& s.new_line == new_line
                &&& s.old_line == old_line
                &&& s.in_hunk == in_hunk
                &&& s.added == file_line_views(added@)
                &&& s.deleted == file_line_views(deleted@)
                &&& s.anchors == anchor_views(anchors@)
            }),
        decreases all@.len() - i,
    {
        let ghost added0 = added@;
        let ghost deleted0 = deleted@;
        let ghost anchors0 = anchors@;
        proof {
            assert(views(all@).take(i + 1).drop_last() =~= views(all@).take(i as int));
            assert(views(all@).take(i + 1).last() == all@[i as int]@);
            reveal_strlit("+");
            reveal_strlit("-");
        }
        let line = all[i].as_str();
        if starts_with(line, "--- a/") {
            old_path = strip_prefix(line, "--- a/");
        } else if same_text(line, "--- /dev/null") {
            old_path = None;
        } else if starts_with(line, "+++ b/") {
            path = strip_prefix(line, "+++ b/");
            in_hunk = false;
        } else if same_text(line, "+++ /dev/null") {
            path = None;
            in_hunk = false;
        } else if starts_with(line, "@@ ") {
            let w = words(line);
            if w.len() < 3 {
                in_hunk = false;
            } else {
                proof {
                    assert(views(w@)[2] == w@[2]@);
                    assert(views(w@)[1] == w@[1]@);
                }
                new_line = first_of_range(w[2].as_str(), '+');
                old_line = first_of_range(w[1].as_str(), '-');
                in_hunk = new_line > 0 || old_line > 0;
            }
        } else if in_hunk {
            if starts_with(line, "+") && !starts_with(line, "+++") {
                if let Some(p) = &path {
                    let text = behind_first(line);
                    added.push((p.clone(), AddedLine { line: new_line, text }));
                    proof {
                        assert(file_line_views(added@) =~= file_line_views(added0).push(
                            (p@, (new_line, line@.skip(1))),
                        ));
                    }
                }
                new_line = next_line(new_line);
            } else if starts_with(line, "-") && !starts_with(line, "---") {
                if let Some(p) = &old_path {
                    let text = behind_first(line);
                    deleted.push((p.clone(), AddedLine { line: old_line, text }));
                    proof {
                        assert(file_line_views(deleted@) =~= file_line_views(deleted0).push(
                            (p@, (old_line, line@.skip(1))),
                        ));
                    }
                }
                if new_line > 0 {
                    if let Some(p) = &path {
                        anchors.push((p.clone(), new_line));
                        proof {
                            assert(anchor_views(anchors@) =~= anchor_views(anchors0).push(
                                (p@, new_line),
                            ));
                        }
                    }
                }
                old_line = next_line(old_line);
            } else if !starts_with(line, "\\") {
                new_line = next_line(new_line);
                old_line = next_line(old_line);
            }
        }
        i += 1;
    }
    proof {
        assert(views(all@).take(all@.len() as int) =~= views(all@));
    }
    ParsedDiffLines { added, deleted, deleted_new_anchors: anchors }
}

fn select_lines(all: &Vec<(String, AddedLine)>, path: &str) -> (r: Vec<AddedLine>)
    ensures
        line_views(r@) == lines_in(file_line_views(all@), path@),
{
    let ghost seen = file_line_views(all@);
    let mut r: Vec<AddedLine> = Vec::new();
    let mut i: usize = 0;
    proof {
        assert(line_views(r@) =~= Seq::empty());
        assert(seen.take(0) =~= Seq::empty());
    }
    while i < all.len()
        invariant
            i <= all@.len(),
            seen == file_line_views(all@),
            line_views(r@) == lines_in(seen.take(i as int), path@),
        decreases all@.len() - i,
    {
        let ghost before = r@;
        proof {
            assert(seen.take(i + 1).drop_last() =~= seen.take(i as int));
            assert(seen.take(i + 1).last() == (all@[i as int].0@, all@[i as int].1@));
        }
        if same_text(all[i].0.as_str(), path) {
            r.push(AddedLine { line: all[i].1.line, text: all[i].1.text.clone() });
            proof {
                assert(line_views(r@) =~= line_views(before).push(all@[i as int].1@));
            }
        }
        i += 1;
    }
    proof {
        assert(seen.take(seen.len() as int) =~= seen);
    }
    r
}

/// The numbers of the lines of a path at which something was removed.
pub open spec fn anchors_of(s: Seq<(Seq<char>, usize)>, path: Seq<char>) -> Seq<usize>
    decreases s.len(),
{
    if s.len() == 0 {
        Seq::empty()
    } else if s.last().0 == path {
        anchors_of(s.drop_last(), path).push(s.last().1)
    } else {
        anchors_of(s.drop_last(), path)
    }
}

impl ParsedDiffLines {
    /// The lines that the diff adds to a path.
    pub fn added_in(&self, path: &str) -> (r: Vec<AddedLine>)
        ensures
            line_views(r@) == lines_in(file_line_views(self.added@), path@),
    {
        select_lines(&self.added, path)
    }

    /// The lines that the diff removes from a path.
    pub fn deleted_in(&self, path: &str) -> (r: Vec<AddedLine>)
        ensures
            line_views(r@) == lines_in(file_line_views(self.deleted@), path@),
    {
        select_lines(&self.deleted, path)
    }

    /// Where on the new side of a path lines were removed.
    pub fn anchors_in(&self, path: &str) -> (r: Vec<usize>)
        ensures
            r@ == anchors_of(anchor_views(self.deleted_new_anchors@), path@),
    {
        let ghost seen = anchor_views(self.deleted_new_anchors@);
        let mut r: Vec<usize> = Vec::new();
        let mut i: usize = 0;
        while i < self.deleted_new_anchors.len()
            invariant
                i <= self.deleted_new_anchors@.len(),
                seen == anchor_views(self.deleted_new_anchors@),
                r@ == anchors_of(seen.take(i as int), path@),
            decreases self.deleted_new_anchors@.len() - i,
        {
            let entry = &self.deleted_new_anchors[i];
            proof {
                assert(seen.take(i + 1).drop_last() =~= seen.take(i as int));
                assert(seen.take(i + 1).last() == (entry.0@, entry.1));
            }
            if same_text(entry.0.as_str(), path) {
                r.push(entry.1);
            }
            i += 1;
        }
        proof {
            assert(seen.take(seen.len() as int) =~= seen);
        }
        r
    }
}

// ---------------------------------------------------------------------------
// Identifiers
// ---------------------------------------------------------------------------

/// The characters that are letters or digits in Unicode.
pub uninterp spec fn alphanumeric(c: char) -> bool;

/// The characters that are letters in Unicode.
pub uninterp spec fn alphabetic(c: char) -> bool;

/// Trusted: `char::is_alphanumeric` depends on the character alone.
pub assume_specification[ char::is_alphanumeric ](c: char) -> (r: bool)
    ensures
        r == alphanumeric(c),
;

/// Trusted: `char::is_alphabetic` depends on the character alone.
pub assume_specification[ char::is_alphabetic ](c: char) -> (r: bool)
    ensures
        r == alphabetic(c),
;

/// A character of an identifier.
pub open spec fn identifier_char(c: char) -> bool {
    c == '_' || alphanumeric(c)
}

/// The first position at or behind `from` with a character of an identifier.
pub open spec fn identifier_start(s: Seq<char>, from: int) -> int
    decreases s.len() - from,
{
    if 0 <= from < s.len() && !identifier_char(s[from]) {
        identifier_start(s, from + 1)
    } else {
        from
    }
}

/// The first position at or behind `from` without a character of an identifier.
pub open spec fn identifier_end(s: Seq<char>, from: int) -> int
    decreases s.len() - from,
{
    if 0 <= from < s.len() && identifier_char(s[from]) {
        identifier_end(s, from + 1)
    } else {
        from
    }
}

/// The identifiers of a line from `from` on.
pub open spec fn identifiers_from(s: Seq<char>, from: int) -> Seq<Seq<char>>
    decreases s.len() - from,
{
    let a = identifier_start(s, from);
    let b = identifier_end(s, a);
    if 0 <= from <= a < b <= s.len() {
        seq![s.subrange(a, b)] + identifiers_from(s, b)
    } else {
        Seq::empty()
    }
}

/// The identifiers of a line: its longest runs of letters, digits and underscores.
pub open spec fn identifiers_of(line: Seq<char>) -> Seq<Seq<char>> {
    identifiers_from(line, 0)
}

fn is_identifier_char(c: char) -> (r: bool)
    ensures
        r == identifier_char(c),
{
    c == '_' || c.is_alphanumeric()
}

/// The identifiers of a line.
pub fn identifiers(line: &str) -> (r: Vec<String>)
    ensures
        views(r@) == identifiers_of(line@),
{
    let v = chars_of(line);
    let mut r: Vec<String> = Vec::new();
    let mut from: usize = 0;
    proof {
        assert(views(r@) + identifiers_from(v@, 0) =~= identifiers_of(line@));
    }
    while from < v.len()
        invariant
            from <= v@.len(),
            v@ == line@,
            views(r@) + identifiers_from(v@, from as int) == identifiers_of(line@),
        decreases v@.len() - from,
    {
        let mut a: usize = from;
        while a < v.len() && !is_identifier_char(v[a])
            invariant
                from <= a <= v@.len(),
                identifier_start(v@, from as int) == identifier_start(v@, a as int),
            decreases v@.len() - a,
        {
            a += 1;
        }
        let mut b: usize = a;
        while b < v.len() && is_identifier_char(v[b])
            invariant
                a <= b <= v@.len(),
                identifier_end(v@, a as int) == identifier_end(v@, b as int),
                a < v@.len() && b == a ==> identifier_char(v@[a as int]),
            decreases v@.len() - b,
        {
            b += 1;
        }
        if a < b {
            let word = text_of(&v, a, b);
            let ghost before = views(r@);
            r.push(word);
            proof {
                assert(views(r@) =~= before.push(word@));
                assert(views(r@) + identifiers_from(v@, b as int) =~= before + (seq![word@]
                    + identifiers_from(v@, b as int)));
            }
            from = b;
        } else {
            proof {
                assert(identifiers_from(v@, from as int) =~= Seq::empty());
                assert(identifiers_from(v@, v@.len() as int) =~= Seq::empty());
            }
            from = v.len();
        }
    }
    proof {
        assert(identifiers_from(v@, from as int) =~= Seq::empty());
        assert(views(r@) =~= identifiers_of(line@));
    }
    r
}

/// At least four characters, of which the first is a letter or an underscore.
pub open spec fn stable(identifier: Seq<char>) -> bool {
    identifier.len() >= 4 && (identifier[0] == '_' || alphabetic(identifier[0]))
}

/// Whether an identifier is long enough and does not start with a digit.
pub fn stable_identifier(identifier: &str) -> (r: bool)
    ensures
        r == stable(identifier@),
{
    let v = chars_of(identifier);
    v.len() >= 4 && (v[0] == '_' || v[0].is_alphabetic())
}

/// An identifier that says more than a plain word: with an underscore, or with both
/// small and capital letters.
pub open spec fn specific(identifier: Seq<char>) -> bool {
    identifier.contains('_') || ((exists|i: int|
        0 <= i < identifier.len() && lower_letter(#[trigger] identifier[i])) && (exists|i: int|
        0 <= i < identifier.len() && upper_letter(#[trigger] identifier[i])))
}

/// Whether an identifier says more than a plain word.
pub fn text_identifier_is_specific(identifier: &str) -> (r: bool)
    ensures
        r == specific(identifier@),
{
    let v = chars_of(identifier);
    let mut lower = false;
    let mut upper = false;
    let mut under = false;
    let mut i: usize = 0;
    while i < v.len()
        invariant
            i <= v@.len(),
            v@ == identifier@,
            lower == exists|k: int| 0 <= k < i && lower_letter(#[trigger] v@[k]),
            upper == exists|k: int| 0 <= k < i && upper_letter(#[trigger] v@[k]),
            under == exists|k: int| 0 <= k < i && #[trigger] v@[k] == '_',
        decreases v@.len() - i,
    {
        let c = v[i];
        if c == '_' {
            under = true;
        }
        if 'a' <= c && c <= 'z' {
            lower = true;
        }
        if 'A' <= c && c <= 'Z' {
            upper = true;
        }
        i += 1;
    }
    under || (lower && upper)
}

/// The words that are no identifiers worth searching for.
pub open spec fn stop_words() -> Seq<Seq<char>> {
    seq![
        "true"@,
        "false"@,
        "null"@,
        "none"@,
        "then"@,
        "else"@,
        "with"@,
        "from"@,
        "this"@,
        "that"@,
        "return"@,
        "shell"@,
        "steps"@,
        "name"@,
        "uses"@,
        "jobs"@,
        "permissions"@,
        "contents"@,
        "reviewgate"@,
        "github"@,
        "pull_request"@,
        "repository"@,
    ]
}

/// A word that is no identifier worth searching for, whatever its case.
pub open spec fn stop_word(identifier: Seq<char>) -> bool {
    stop_words().contains(lowercase(identifier))
}

/// Whether the text is one of the words.
pub fn one_of(text: &str, words: &Vec<&str>) -> (r: bool)
    ensures
        r == words@.map_values(|w: &str| w@).contains(text@),
{
    let ghost all = words@.map_values(|w: &str| w@);
    let mut i: usize = 0;
    while i < words.len()
        invariant
            i <= words@.len(),
            all == words@.map_values(|w: &str| w@),
            forall|k: int| 0 <= k < i ==> all[k] != text@,
        decreases words@.len() - i,
    {
        proof {
            assert(all[i as int] == words@[i as int]@);
        }
        if same_text(text, words[i]) {
            return true;
        }
        i += 1;
    }
    false
}

/// Whether a word is no identifier worth searching for.
pub fn text_stop_word(identifier: &str) -> (r: bool)
    ensures
        r == stop_word(identifier@),
{
    let lower = to_lowercase(identifier);
    let words: Vec<&str> = vec![
        "true",
        "false",
        "null",
        "none",
        "then",
        "else",
        "with",
        "from",
        "this",
        "that",
        "return",
        "shell",
        "steps",
        "name",
        "uses",
        "jobs",
        "permissions",
        "contents",
        "reviewgate",
        "github",
        "pull_request",
        "repository",
    ];
    proof {
        assert(words@.map_values(|w: &str| w@) =~= stop_words());
    }
    one_of(lower.as_str(), &words)
}

// ---------------------------------------------------------------------------
// What holds of it
// ---------------------------------------------------------------------------

/// The lines of a file are those that the diff has for it, in their order, and no others.
pub proof fn law_lines_of_a_file(a: Seq<FileLine>, b: Seq<FileLine>, one: FileLine, path: Seq<char>)
    ensures
        lines_in(a + b, path) == lines_in(a, path) + lines_in(b, path),
        one.0 == path ==> lines_in(seq![one], path) == seq![one.1],
        one.0 != path ==> lines_in(seq![one], path).len() == 0,
        lines_in(Seq::empty(), path).len() == 0,
    decreases b.len(),
{
    assert(seq![one].drop_last() =~= Seq::empty());
    reveal_with_fuel(lines_in, 2);
    if one.0 == path {
        assert(lines_in(seq![one], path) =~= seq![one.1]);
    }
    if b.len() == 0 {
        assert(a + b =~= a);
        assert(lines_in(a, path) + lines_in(b, path) =~= lines_in(a, path));
    } else {
        assert((a + b).drop_last() =~= a + b.drop_last());
        law_lines_of_a_file(a, b.drop_last(), one, path);
        assert(lines_in(a + b, path) =~= lines_in(a, path) + lines_in(b, path));
    }
}

/// The places of a file at which lines were removed are those that the diff has for it, in
/// their order, and no others.
pub proof fn law_anchors_of_a_file(
    a: Seq<(Seq<char>, usize)>,
    b: Seq<(Seq<char>, usize)>,
    one: (Seq<char>, usize),
    path: Seq<char>,
)
    ensures
        anchors_of(a + b, path) == anchors_of(a, path) + anchors_of(b, path),
        one.0 == path ==> anchors_of(seq![one], path) == seq![one.1],
        one.0 != path ==> anchors_of(seq![one], path).len() == 0,
    decreases b.len(),
{
    assert(seq![one].drop_last() =~= Seq::empty());
    reveal_with_fuel(anchors_of, 2);
    if one.0 == path {
        assert(anchors_of(seq![one], path) =~= seq![one.1]);
    }
    if b.len() == 0 {
        assert(a + b =~= a);
        assert(anchors_of(a, path) + anchors_of(b, path) =~= anchors_of(a, path));
    } else {
        assert((a + b).drop_last() =~= a + b.drop_last());
        law_anchors_of_a_file(a, b.drop_last(), one, path);
        assert(anchors_of(a + b, path) =~= anchors_of(a, path) + anchors_of(b, path));
    }
}

/// An added line of a hunk is recorded with its file and its number, and the next line has
/// the next number; nothing is counted on the other side.
pub proof fn law_added_lines_are_numbered(lines: Seq<Seq<char>>, text: Seq<char>)
    requires
        change_state(lines).in_hunk,
        change_state(lines).path is Some,
        !"++"@.is_prefix_of(text),
    ensures
        ({
            let before = change_state(lines);
            let after = change_state(lines.push(seq!['+'] + text));
            &&& after.added == before.added.push((before.path->0, (before.new_line, text)))
            &&& after.deleted == before.deleted && after.anchors == before.anchors
            &&& before.new_line < usize::MAX ==> after.new_line == before.new_line + 1
            &&& after.old_line == before.old_line
            &&& after.path == before.path && after.old_path == before.old_path && after.in_hunk
        }),
{
    let line = seq!['+'] + text;
    lemma_hunk_line(lines, line);
    assert(line.skip(1) =~= text);
    if "+++"@.is_prefix_of(line) {
        reveal_strlit("+++");
        reveal_strlit("++");
        assert(text.take(2) =~= "++"@) by {
            assert(line.take(3)[1] == '+' && line.take(3)[2] == '+');
        }
    }
    assert("+"@.is_prefix_of(line)) by {
        reveal_strlit("+");
        assert(line.take(1) =~= "+"@);
    }
    assert(!"+++ b/"@.is_prefix_of(line) && line != "+++ /dev/null"@) by {
        reveal_strlit("+++ b/");
        reveal_strlit("+++ /dev/null");
        reveal_strlit("+++");
        if "+++ b/"@.is_prefix_of(line) {
            assert(line.take(3) =~= "+++"@) by {
                assert(line.take(6)[0] == '+' && line.take(6)[1] == '+' && line.take(6)[2] == '+');
            }
        }
        if line == "+++ /dev/null"@ {
            assert(line.take(3) =~= "+++"@);
        }
    }
}

proof fn lemma_hunk_line(lines: Seq<Seq<char>>, line: Seq<char>)
    requires
        line.len() > 0,
    ensures
        lines.push(line).drop_last() == lines,
        lines.push(line).last() == line,
        line[0] != '-' ==> !"--- a/"@.is_prefix_of(line) && line != "--- /dev/null"@
            && !"-"@.is_prefix_of(line),
        line[0] != '+' ==> !"+++ b/"@.is_prefix_of(line) && line != "+++ /dev/null"@
            && !"+"@.is_prefix_of(line),
        line[0] != '@' ==> !"@@ "@.is_prefix_of(line),
        line[0] != '\\' ==> !"\\"@.is_prefix_of(line),
{
    assert(lines.push(line).drop_last() =~= lines);
    reveal_strlit("--- a/");
    reveal_strlit("--- /dev/null");
    reveal_strlit("-");
    reveal_strlit("+++ b/");
    reveal_strlit("+++ /dev/null");
    reveal_strlit("+");
    reveal_strlit("@@ ");
    reveal_strlit("\\");
    if "--- a/"@.is_prefix_of(line) {
        assert(line.take(6)[0] == '-');
    }
    if "-"@.is_prefix_of(line) {
        assert(line.take(1)[0] == '-');
    }
    if "+++ b/"@.is_prefix_of(line) {
        assert(line.take(6)[0] == '+');
    }
    if "+"@.is_prefix_of(line) {
        assert(line.take(1)[0] == '+');
    }
    if "@@ "@.is_prefix_of(line) {
        assert(line.take(3)[0] == '@');
    }
    if "\\"@.is_prefix_of(line) {
        assert(line.take(1)[0] == '\\');
    }
}

/// A removed line of a hunk is recorded with the file that it was in and its number there,
/// and where it was is recorded for the file as it is now; only the other side moves on.
pub proof fn law_removed_lines_are_numbered(lines: Seq<Seq<char>>, text: Seq<char>)
    requires
        change_state(lines).in_hunk,
        change_state(lines).old_path is Some,
        !"--"@.is_prefix_of(text),
    ensures
        ({
            let before = change_state(lines);
            let after = change_state(lines.push(seq!['-'] + text));
            &&& after.deleted == before.deleted.push(
                (before.old_path->0, (before.old_line, text)),
            )
            &&& after.added == before.added
            &&& before.path matches Some(path) ==> before.new_line > 0 ==> after.anchors
                == before.anchors.push((path, before.new_line))
            &&& before.path is None || before.new_line == 0 ==> after.anchors == before.anchors
            &&& before.old_line < usize::MAX ==> after.old_line == before.old_line + 1
            &&& after.new_line == before.new_line
            &&& after.path == before.path && after.old_path == before.old_path && after.in_hunk
        }),
{
    let line = seq!['-'] + text;
    lemma_hunk_line(lines, line);
    assert(line.skip(1) =~= text);
    if "---"@.is_prefix_of(line) {
        reveal_strlit("---");
        reveal_strlit("--");
        assert(text.take(2) =~= "--"@) by {
            assert(line.take(3)[1] == '-' && line.take(3)[2] == '-');
        }
    }
    assert("-"@.is_prefix_of(line)) by {
        reveal_strlit("-");
        assert(line.take(1) =~= "-"@);
    }
    assert(!"--- a/"@.is_prefix_of(line) && line != "--- /dev/null"@) by {
        reveal_strlit("--- a/");
        reveal_strlit("--- /dev/null");
        reveal_strlit("---");
        if "--- a/"@.is_prefix_of(line) {
            assert(line.take(3) =~= "---"@) by {
                assert(line.take(6)[0] == '-' && line.take(6)[1] == '-' && line.take(6)[2] == '-');
            }
        }
        if line == "--- /dev/null"@ {
            assert(line.take(3) =~= "---"@);
        }
    }
}

/// An unchanged line of a hunk is not recorded, and counts on both sides; a remark counts
/// on none.
pub proof fn law_other_lines_are_counted(lines: Seq<Seq<char>>, text: Seq<char>)
    requires
        change_state(lines).in_hunk,
    ensures
        ({
            let before = change_state(lines);
            let same = change_state(lines.push(seq![' '] + text));
            let remark = change_state(lines.push(seq!['\\'] + text));
            &&& same.added == before.added && same.deleted == before.deleted && same.anchors
                == before.anchors
            &&& before.new_line < usize::MAX ==> same.new_line == before.new_line + 1
            &&& before.old_line < usize::MAX ==> same.old_line == before.old_line + 1
            &&& same.path == before.path && same.old_path == before.old_path && same.in_hunk
            &&& remark == before
        }),
{
    lemma_hunk_line(lines, seq![' '] + text);
    lemma_hunk_line(lines, seq!['\\'] + text);
    assert("\\"@.is_prefix_of(seq!['\\'] + text)) by {
        reveal_strlit("\\");
        assert((seq!['\\'] + text).take(1) =~= "\\"@);
    }
}

/// Headers name the file on either side, and a file starts outside any hunk.
pub proof fn law_change_headers(lines: Seq<Seq<char>>, name: Seq<char>)
    ensures
        ({
            let before = change_state(lines);
            let old = change_state(lines.push("--- a/"@ + name));
            let new = change_state(lines.push("+++ b/"@ + name));
            let gone = change_state(lines.push("+++ /dev/null"@));
            let fresh = change_state(lines.push("--- /dev/null"@));
            &&& old.old_path == Some(name) && old.path == before.path
            &&& new.path == Some(name) && new.old_path == before.old_path && !new.in_hunk
            &&& gone.path is None && !gone.in_hunk
            &&& fresh.old_path is None
            &&& old.added == before.added && new.added == before.added && gone.added
                == before.added && fresh.added == before.added
            &&& old.deleted == before.deleted && new.deleted == before.deleted && gone.deleted
                == before.deleted && fresh.deleted == before.deleted
        }),
{
    reveal_strlit("--- a/");
    reveal_strlit("+++ b/");
    reveal_strlit("+++ /dev/null");
    reveal_strlit("--- /dev/null");
    let a = "--- a/"@ + name;
    let b = "+++ b/"@ + name;
    crate::text::law_beginnings_and_ends_are_taken_off(name, "--- a/"@);
    crate::text::law_beginnings_and_ends_are_taken_off(name, "+++ b/"@);
    lemma_hunk_line(lines, a);
    lemma_hunk_line(lines, b);
    lemma_hunk_line(lines, "+++ /dev/null"@);
    lemma_hunk_line(lines, "--- /dev/null"@);
    assert(b[0] == '+');
    assert(a[0] == '-');
    if "+++ b/"@.is_prefix_of("+++ /dev/null"@) {
        assert("+++ /dev/null"@.take(6)[4] == "+++ b/"@[4]);
    }
    if "--- a/"@.is_prefix_of("--- /dev/null"@) {
        assert("--- /dev/null"@.take(6)[4] == "--- a/"@[4]);
    }
}

/// The identifiers of a line are its longest runs of letters, digits and underscores: one
/// before another character is the first of them, and a character of another kind in front
/// changes nothing.
pub proof fn law_identifiers(name: Seq<char>, other: char, rest: Seq<char>)
    requires
        name.len() > 0,
        forall|j: int|
            0 <= j < name.len() ==> (#[trigger] name[j] == '_' || alphanumeric(name[j])),
        other != '_' && !alphanumeric(other),
    ensures
        identifiers_of(Seq::empty()).len() == 0,
        identifiers_of(name) == seq![name],
        identifiers_of(name + seq![other] + rest) == seq![name] + identifiers_of(rest),
        identifiers_of(seq![other] + rest) == identifiers_of(rest),
{
    let n = name.len() as int;
    let s = name + seq![other] + rest;
    assert(s[0] == name[0]);
    assert forall|j: int| 0 <= j < n implies identifier_char(#[trigger] s[j]) by {
        assert(s[j] == name[j]);
    }
    assert(s[n] == other);
    lemma_identifier_ends_at(s, 0, n);
    lemma_identifier_ends_at(name, 0, n);
    assert(identifier_char(s[0]));
    assert(identifier_char(name[0]));
    assert(s.subrange(0, n) =~= name);
    assert(name.subrange(0, n) =~= name);
    lemma_identifiers_shifted(s, rest, n + 1, 0);
    lemma_identifiers_over_other(s, n);
    assert(identifiers_from(name, n) =~= Seq::empty());
    assert(identifiers_of(name) =~= seq![name]);
    let t = seq![other] + rest;
    assert(t[0] == other);
    lemma_identifiers_shifted(t, rest, 1, 0);
    lemma_identifiers_over_other(t, 0);
}

proof fn lemma_start_bounds(s: Seq<char>, from: int)
    requires
        0 <= from <= s.len(),
    ensures
        from <= identifier_start(s, from) <= s.len(),
        from <= identifier_end(s, from) <= s.len(),
    decreases s.len() - from,
{
    if from < s.len() {
        lemma_start_bounds(s, from + 1);
    }
}

proof fn lemma_identifiers_over_other(s: Seq<char>, from: int)
    requires
        0 <= from < s.len(),
        !identifier_char(s[from]),
    ensures
        identifiers_from(s, from) == identifiers_from(s, from + 1),
{
    lemma_start_bounds(s, from + 1);
}

proof fn lemma_identifier_ends_at(s: Seq<char>, from: int, to: int)
    requires
        0 <= from <= to <= s.len(),
        forall|j: int| from <= j < to ==> identifier_char(#[trigger] s[j]),
        to < s.len() ==> !identifier_char(s[to]),
    ensures
        identifier_end(s, from) == to,
    decreases to - from,
{
    if from < to {
        assert(identifier_char(s[from]));
        lemma_identifier_ends_at(s, from + 1, to);
    }
}

proof fn lemma_bounds_shifted(s: Seq<char>, rest: Seq<char>, by: int, from: int)
    requires
        0 <= from <= rest.len(),
        0 <= by,
        s.len() == by + rest.len(),
        forall|j: int| 0 <= j < rest.len() ==> s[by + j] == rest[j],
    ensures
        identifier_end(s, by + from) == by + identifier_end(rest, from),
        identifier_start(s, by + from) == by + identifier_start(rest, from),
    decreases rest.len() - from,
{
    if from < rest.len() {
        assert(s[by + from] == rest[from]);
        lemma_bounds_shifted(s, rest, by, from + 1);
    }
}

proof fn lemma_identifiers_shifted(s: Seq<char>, rest: Seq<char>, by: int, from: int)
    requires
        0 <= from <= rest.len(),
        0 <= by,
        s.len() == by + rest.len(),
        forall|j: int| 0 <= j < rest.len() ==> s[by + j] == rest[j],
    ensures
        identifiers_from(s, by + from) == identifiers_from(rest, from),
    decreases rest.len() - from,
{
    lemma_start_bounds(rest, from);
    lemma_bounds_shifted(s, rest, by, from);
    let a = identifier_start(rest, from);
    lemma_start_bounds(rest, a);
    lemma_bounds_shifted(s, rest, by, a);
    let b = identifier_end(rest, a);
    assert(s.subrange(by + a, by + b) =~= rest.subrange(a, b));
    if from <= a < b <= rest.len() {
        lemma_identifiers_shifted(s, rest, by, b);
    }
}

/// Which identifiers are worth a search: they have four characters, start with a letter or
/// an underscore, and have an underscore in them or letters of both cases.
pub proof fn law_identifiers_worth_a_search(name: Seq<char>)
    ensures
        stable(name) ==> name.len() >= 4,
        name.len() >= 4 && (alphabetic(name[0]) || name[0] == '_') ==> stable(name),
        name.len() < 4 ==> !stable(name),
        name.contains('_') ==> specific(name),
        forall|i: int, j: int|
            0 <= i < name.len() && 0 <= j < name.len() && 'a' <= #[trigger] name[i] <= 'z' && 'A'
                <= #[trigger] name[j] <= 'Z' ==> specific(name),
        !name.contains('_') && (forall|i: int|
            0 <= i < name.len() ==> !('A' <= #[trigger] name[i] <= 'Z')) ==> !specific(name),
        !name.contains('_') && (forall|i: int|
            0 <= i < name.len() ==> !('a' <= #[trigger] name[i] <= 'z')) ==> !specific(name),
{
    assert forall|i: int, j: int|
        0 <= i < name.len() && 0 <= j < name.len() && 'a' <= #[trigger] name[i] <= 'z' && 'A'
            <= #[trigger] name[j] <= 'Z' implies specific(name) by {
        assert(lower_letter(name[i]));
        assert(upper_letter(name[j]));
    }
}

/// A hunk begins where its header tells a first line of either side; a header that tells
/// none, or that is cut off, begins no hunk. The files stay as they are.
pub proof fn law_hunks_begin(s: ChangeState, line: Seq<char>)
    requires
        "@@ "@.is_prefix_of(line),
    ensures
        ({
            let next = change_step(s, line);
            &&& words_of(line).len() < 3 ==> !next.in_hunk && next.new_line == s.new_line
            &&& words_of(line).len() >= 3 ==> next.new_line == range_first(words_of(line)[2], '+')
                && next.old_line == range_first(words_of(line)[1], '-') && (next.in_hunk
                <==> next.new_line > 0 || next.old_line > 0)
            &&& next.path == s.path && next.old_path == s.old_path && next.added == s.added
                && next.deleted == s.deleted && next.anchors == s.anchors
        }),
        change_start().added.len() == 0,
        change_start().deleted.len() == 0,
        change_start().anchors.len() == 0,
        change_start().path is None,
        change_start().old_path is None,
        !change_start().in_hunk,
{
    reveal_strlit("@@ ");
    reveal_strlit("--- a/");
    reveal_strlit("--- /dev/null");
    reveal_strlit("+++ b/");
    reveal_strlit("+++ /dev/null");
    assert(line.subrange(0, 3)[0] == "@@ "@[0]);
    assert(line[0] == '@');
    if "--- a/"@.is_prefix_of(line) {
        assert(line.subrange(0, 6)[0] == "--- a/"@[0]);
    }
    if "+++ b/"@.is_prefix_of(line) {
        assert(line.subrange(0, 6)[0] == "+++ b/"@[0]);
    }
}

} // verus!
