//! Searching for the identifiers of a change: what to search for next, what was found,
//! and which of it is loaded and shown.
use vstd::prelude::*;

use crate::json::{json_document, read_json, text_at, unsigned_at, Json, JsonView};
use crate::list::{distinct, holds};
use crate::order::{
    is_before, keys, lemma_text_before_irreflexive, lemma_text_before_total,
    lemma_text_before_transitive, lemma_text_le_transitive, sort, sorted, text_before, text_le,
    Ranked, Sortable,
};
use crate::split::{lines, lines_of, trim_end, trim_end_of};
use crate::text::{
    after_prefix, concat2, contains, ends_with, has_text, lowercase, same_text, starts_with,
    strip_prefix, to_lowercase, views,
};

verus! {

/// How many lines of a reference are shown around it.
pub const EXCERPT_CONTEXT_LINES: usize = 3;

/// How many candidates are loaded at most.
pub const MAX_SEMANTIC_SOURCE_CANDIDATES: usize = 64;

/// How many files are loaded at most.
pub const MAX_SEMANTIC_SOURCE_PATHS: usize = 32;

/// How many bytes an excerpt takes at most.
pub const MAX_SEMANTIC_EXCERPT_BYTES: usize = 4096;

/// A line that refers to an identifier.
#[derive(Debug, PartialEq, Eq)]
pub struct SearchMatch {
    pub path: String,
    pub line: usize,
    pub text: String,
    pub symbol: String,
    pub origin: String,
}

/// What a match says. Matches are ordered by how telling they are, then by path, line,
/// identifier and file of the change.
pub struct MatchView {
    pub path: Seq<char>,
    pub line: usize,
    pub text: Seq<char>,
    pub symbol: Seq<char>,
    pub origin: Seq<char>,
}

impl View for SearchMatch {
    type V = MatchView;

    open spec fn view(&self) -> MatchView {
        MatchView {
            path: self.path@,
            line: self.line,
            text: self.text@,
            symbol: self.symbol@,
            origin: self.origin@,
        }
    }
}

impl Clone for SearchMatch {
    fn clone(&self) -> (r: Self)
        ensures
            r@ == self@,
    {
        SearchMatch {
            path: self.path.clone(),
            line: self.line,
            text: self.text.clone(),
            symbol: self.symbol.clone(),
            origin: self.origin.clone(),
        }
    }
}

/// What matches say.
pub open spec fn match_views(s: Seq<SearchMatch>) -> Seq<MatchView> {
    s.map_values(|m: SearchMatch| m@)
}

// ---------------------------------------------------------------------------
// What a reference is worth
// ---------------------------------------------------------------------------

/// A path of a test.
pub open spec fn test_path(path: Seq<char>) -> bool {
    has_text(path, "/tests/"@) || "tests/"@.is_prefix_of(path) || has_text(path, "_test."@)
        || has_text(path, ".test."@) || has_text(path, ".spec."@)
}

/// A path of configuration or documentation.
pub open spec fn configuration_path(path: Seq<char>) -> bool {
    ".github/"@.is_prefix_of(path) || ".yml"@.is_suffix_of(path) || ".yaml"@.is_suffix_of(path)
        || ".toml"@.is_suffix_of(path) || ".json"@.is_suffix_of(path) || ".md"@.is_suffix_of(path)
        || ".ini"@.is_suffix_of(path) || ".cfg"@.is_suffix_of(path) || ".lock"@.is_suffix_of(path)
}

/// A line that seems to define the identifier.
pub open spec fn defines(line: Seq<char>, symbol: Seq<char>) -> bool {
    has_text(line, "fn "@ + symbol) || has_text(line, "struct "@ + symbol) || has_text(
        line,
        "enum "@ + symbol,
    ) || has_text(line, "trait "@ + symbol) || has_text(line, "type "@ + symbol) || has_text(
        line,
        "const "@ + symbol,
    ) || has_text(line, "static "@ + symbol) || has_text(line, "def "@ + symbol) || has_text(
        line,
        "class "@ + symbol,
    ) || has_text(line, "function "@ + symbol)
}

/// How telling a match is, with the smaller number for the more telling.
pub open spec fn match_rank(m: MatchView) -> u8 {
    let path = lowercase(m.path);
    if test_path(path) {
        0
    } else if defines(m.text, m.symbol) {
        1
    } else if configuration_path(path) {
        2
    } else {
        3
    }
}

/// Why a match is shown.
pub open spec fn match_reason(m: MatchView) -> Seq<char> {
    let rank = match_rank(m);
    if rank == 0 {
        "test_reference"@
    } else if rank == 1 {
        "definition"@
    } else if rank == 2 {
        "configuration_reference"@
    } else {
        "reference"@
    }
}

/// Whether the path is that of a test.
pub fn is_test_path(path: &str) -> (r: bool)
    ensures
        r == test_path(path@),
{
    contains(path, "/tests/") || starts_with(path, "tests/") || contains(path, "_test.")
        || contains(path, ".test.") || contains(path, ".spec.")
}

/// Whether the path is that of configuration or documentation.
pub fn is_configuration_path(path: &str) -> (r: bool)
    ensures
        r == configuration_path(path@),
{
    starts_with(path, ".github/") || ends_with(path, ".yml") || ends_with(path, ".yaml")
        || ends_with(path, ".toml") || ends_with(path, ".json") || ends_with(path, ".md")
        || ends_with(path, ".ini") || ends_with(path, ".cfg") || ends_with(path, ".lock")
}

fn has_definition(line: &str, word: &str, symbol: &str) -> (r: bool)
    ensures
        r == has_text(line@, word@ + symbol@),
{
    let both = concat2(word, symbol);
    contains(line, both.as_str())
}

/// Whether the line seems to define the identifier.
pub fn looks_like_definition(line: &str, symbol: &str) -> (r: bool)
    ensures
        r == defines(line@, symbol@),
{
    has_definition(line, "fn ", symbol) || has_definition(line, "struct ", symbol)
        || has_definition(line, "enum ", symbol) || has_definition(line, "trait ", symbol)
        || has_definition(line, "type ", symbol) || has_definition(line, "const ", symbol)
        || has_definition(line, "static ", symbol) || has_definition(line, "def ", symbol)
        || has_definition(line, "class ", symbol) || has_definition(line, "function ", symbol)
}

/// How telling a match is, and why it is shown.
pub fn candidate_rank_and_reason(candidate: &SearchMatch) -> (r: (u8, &'static str))
    ensures
        r.0 == match_rank(candidate@),
        r.1@ == match_reason(candidate@),
{
    let path = to_lowercase(candidate.path.as_str());
    if is_test_path(path.as_str()) {
        (0, "test_reference")
    } else if looks_like_definition(candidate.text.as_str(), candidate.symbol.as_str()) {
        (1, "definition")
    } else if is_configuration_path(path.as_str()) {
        (2, "configuration_reference")
    } else {
        (3, "reference")
    }
}

/// How telling a match is.
pub fn candidate_rank(candidate: &SearchMatch) -> (r: u8)
    ensures
        r == match_rank(candidate@),
{
    candidate_rank_and_reason(candidate).0
}

// ---------------------------------------------------------------------------
// What ripgrep reports
// ---------------------------------------------------------------------------

/// The text of bytes, with a replacement character for what is no UTF-8.
pub uninterp spec fn lossy_text(bytes: Seq<u8>) -> Seq<char>;

/// Trusted: `String::from_utf8_lossy`. The text depends on the bytes alone.
#[verifier::external_body]
fn text_of_bytes(bytes: &[u8]) -> (r: String)
    ensures
        r@ == lossy_text(bytes@),
{
    String::from_utf8_lossy(bytes).into_owned()
}

/// The match that an event of ripgrep reports, if it reports one below the directory
/// that was searched.
pub open spec fn event_match(
    event: Option<JsonView>,
    symbol: Seq<char>,
    origin: Seq<char>,
) -> Option<MatchView> {
    match event {
        Some(e) => {
            let path = match text_at(e, "data.path.text"@) {
                Some(p) => after_prefix(p, "./"@),
                None => None,
            };
            let line = unsigned_at(e, "data.line_number"@);
            let text = text_at(e, "data.lines.text"@);
            if text_at(e, "type"@) == Some("match"@) && path is Some && line is Some && line->0
                <= usize::MAX && text is Some {
                Some(
                    MatchView {
                        path: path->0,
                        line: line->0 as usize,
                        text: trim_end_of(text->0),
                        symbol,
                        origin,
                    },
                )
            } else {
                None
            }
        },
        None => None,
    }
}

/// The matches that the events on these lines report.
pub open spec fn reported_matches(
    lines: Seq<Seq<char>>,
    symbol: Seq<char>,
    origin: Seq<char>,
) -> Seq<MatchView>
    decreases lines.len(),
{
    if lines.len() == 0 {
        Seq::empty()
    } else {
        let rest = reported_matches(lines.drop_last(), symbol, origin);
        match event_match(json_document(lines.last()), symbol, origin) {
            Some(m) => rest.push(m),
            None => rest,
        }
    }
}

/// The match that an event of ripgrep reports, if it reports one.
pub fn match_of_event(event: &Json, symbol: &str, origin: &str) -> (r: Option<SearchMatch>)
    ensures
        match r {
            Some(m) => event_match(Some(event@), symbol@, origin@) == Some(m@),
            None => event_match(Some(event@), symbol@, origin@) is None,
        },
{
    match event.text_at("type") {
        Some(kind) => if !same_text(kind, "match") {
            return None;
        },
        None => {
            return None;
        },
    }
    let full = match event.text_at("data.path.text") {
        Some(p) => p,
        None => {
            return None;
        },
    };
    let path = match strip_prefix(full, "./") {
        Some(p) => p,
        None => {
            return None;
        },
    };
    let number = match event.u64_at("data.line_number") {
        Some(n) => n,
        None => {
            return None;
        },
    };
    if number > usize::MAX as u64 {
        return None;
    }
    match event.text_at("data.lines.text") {
        Some(t) => Some(
            SearchMatch {
                path,
                line: number as usize,
                text: trim_end(t),
                symbol: symbol.to_owned(),
                origin: origin.to_owned(),
            },
        ),
        None => None,
    }
}

/// The matches that the output of ripgrep reports.
pub fn parse_rg_matches(output: &[u8], symbol: &str, origin: &str) -> (r: Vec<SearchMatch>)
    ensures
        match_views(r@) == reported_matches(lines_of(lossy_text(output@)), symbol@, origin@),
{
    let text = text_of_bytes(output);
    let all = lines(text.as_str());
    let ghost events = views(all@);
    let mut r: Vec<SearchMatch> = Vec::new();
    let mut i: usize = 0;
    proof {
        assert(match_views(r@) =~= Seq::empty());
        assert(events.take(0) =~= Seq::empty());
    }
    while i < all.len()
        invariant
            i <= all@.len(),
            events == views(all@),
            match_views(r@) == reported_matches(events.take(i as int), symbol@, origin@),
        decreases all@.len() - i,
    {
        let ghost before = r@;
        proof {
            assert(events.take(i + 1).drop_last() =~= events.take(i as int));
            assert(events.take(i + 1).last() == all@[i as int]@);
        }
        if let Some(event) = read_json(all[i].as_str()) {
            if let Some(m) = match_of_event(&event, symbol, origin) {
                r.push(m);
                proof {
                    assert(match_views(r@) =~= match_views(before).push(m@));
                }
            }
        }
        i += 1;
    }
    proof {
        assert(events.take(events.len() as int) =~= events);
    }
    r
}

// ---------------------------------------------------------------------------
// Which candidates are loaded
// ---------------------------------------------------------------------------

impl Ranked for MatchView {
    open spec fn at_most(self, other: Self) -> bool {
        if match_rank(self) != match_rank(other) {
            match_rank(self) < match_rank(other)
        } else if self.path != other.path {
            text_before(self.path, other.path)
        } else if self.line != other.line {
            self.line < other.line
        } else if self.symbol != other.symbol {
            text_before(self.symbol, other.symbol)
        } else {
            text_le(self.origin, other.origin)
        }
    }

    proof fn total(a: Self, b: Self) {
        lemma_text_before_total(a.path, b.path);
        lemma_text_before_total(a.symbol, b.symbol);
        lemma_text_before_total(a.origin, b.origin);
    }

    proof fn transitive(a: Self, b: Self, c: Self) {
        lemma_chain(a.path, b.path, c.path);
        lemma_chain(a.symbol, b.symbol, c.symbol);
        if text_le(a.origin, b.origin) && text_le(b.origin, c.origin) {
            lemma_text_le_transitive(a.origin, b.origin, c.origin);
        }
    }
}

/// What follows of the places of three texts.
pub proof fn lemma_chain(a: Seq<char>, b: Seq<char>, c: Seq<char>)
    ensures
        text_before(a, b) && text_before(b, c) ==> text_before(a, c) && a != c,
{
    if text_before(a, b) && text_before(b, c) {
        lemma_text_before_transitive(a, b, c);
        lemma_text_before_irreflexive(a);
    }
}

impl Sortable for SearchMatch {
    type Key = MatchView;

    open spec fn key(self) -> MatchView {
        self@
    }

    fn is_at_most(&self, other: &Self) -> (r: bool) {
        let a: u8 = candidate_rank(self);
        let b: u8 = candidate_rank(other);
        if a != b {
            return a < b;
        }
        if !same_text(self.path.as_str(), other.path.as_str()) {
            return is_before(self.path.as_str(), other.path.as_str());
        }
        if self.line != other.line {
            return self.line < other.line;
        }
        if !same_text(self.symbol.as_str(), other.symbol.as_str()) {
            return is_before(self.symbol.as_str(), other.symbol.as_str());
        }
        self.origin.is_at_most(&other.origin)
    }
}

/// The paths of matches, each once.
pub open spec fn paths_of(s: Seq<MatchView>) -> Seq<Seq<char>> {
    distinct(s.map_values(|m: MatchView| m.path))
}

/// The candidate is loaded too, unless too many candidates or files would be.
pub open spec fn bounded_step(kept: Seq<MatchView>, m: MatchView) -> Seq<MatchView> {
    if kept.len() >= MAX_SEMANTIC_SOURCE_CANDIDATES {
        kept
    } else if !paths_of(kept).contains(m.path) && paths_of(kept).len()
        >= MAX_SEMANTIC_SOURCE_PATHS {
        kept
    } else {
        kept.push(m)
    }
}

/// The candidates that are loaded of these, the first before the others.
pub open spec fn bounded(s: Seq<MatchView>) -> Seq<MatchView>
    decreases s.len(),
{
    if s.len() == 0 {
        s
    } else {
        bounded_step(bounded(s.drop_last()), s.last())
    }
}

/// No more candidates than fit are loaded, from no more files than fit.
pub proof fn law_bounded(s: Seq<MatchView>)
    ensures
        bounded(s).len() <= MAX_SEMANTIC_SOURCE_CANDIDATES,
        paths_of(bounded(s)).len() <= MAX_SEMANTIC_SOURCE_PATHS,
        bounded(s).len() <= s.len(),
    decreases s.len(),
{
    if s.len() > 0 {
        let kept = bounded(s.drop_last());
        law_bounded(s.drop_last());
        let f = |m: MatchView| m.path;
        assert(kept.push(s.last()).map_values(f).drop_last() =~= kept.map_values(f));
        assert(kept.push(s.last()).map_values(f).last() == s.last().path);
    } else {
        assert(s.map_values(|m: MatchView| m.path) =~= Seq::empty());
    }
}

/// The candidates in order, as many of them as are loaded, and whether some are not.
pub fn bound_source_candidates(matches: Vec<SearchMatch>) -> (r: (Vec<SearchMatch>, bool))
    ensures
        match_views(r.0@) == bounded(sorted(match_views(matches@))),
        r.1 == (r.0@.len() < matches@.len()),
        r.0@.len() <= MAX_SEMANTIC_SOURCE_CANDIDATES,
        paths_of(match_views(r.0@)).len() <= MAX_SEMANTIC_SOURCE_PATHS,
{
    let original_len: usize = matches.len();
    let ghost given = match_views(matches@);
    proof {
        assert(keys(matches@) =~= given);
    }
    let ordered = sort(matches);
    let ghost order = sorted(given);
    proof {
        assert(keys(ordered@) =~= match_views(ordered@));
        assert(match_views(ordered@) == order);
    }
    let mut kept: Vec<SearchMatch> = Vec::new();
    let mut paths: Vec<String> = Vec::new();
    let mut i: usize = 0;
    proof {
        assert(match_views(kept@) =~= Seq::empty());
        assert(order.take(0) =~= Seq::empty());
        assert(views(paths@) =~= Seq::empty());
        assert(match_views(kept@).map_values(|m: MatchView| m.path) =~= Seq::empty());
    }
    while i < ordered.len()
        invariant
            i <= ordered@.len(),
            order == match_views(ordered@),
            match_views(kept@) == bounded(order.take(i as int)),
            views(paths@) == paths_of(match_views(kept@)),
        decreases ordered@.len() - i,
    {
        let ghost before = match_views(kept@);
        let candidate = &ordered[i];
        proof {
            assert(order.take(i + 1).drop_last() =~= order.take(i as int));
            assert(order.take(i + 1).last() == candidate@);
        }
        if kept.len() < MAX_SEMANTIC_SOURCE_CANDIDATES {
            let known = holds(&paths, candidate.path.as_str());
            if known || paths.len() < MAX_SEMANTIC_SOURCE_PATHS {
                kept.push(candidate.clone());
                proof {
                    let f = |m: MatchView| m.path;
                    assert(match_views(kept@) =~= before.push(candidate@));
                    assert(before.push(candidate@).map_values(f).drop_last()
                        =~= before.map_values(f));
                    assert(before.push(candidate@).map_values(f).last() == candidate@.path);
                }
                crate::list::push_unique(&mut paths, candidate.path.clone());
            }
        }
        i += 1;
    }
    proof {
        assert(order.take(order.len() as int) =~= order);
        law_bounded(order);
    }
    let truncated = kept.len() < original_len;
    (kept, truncated)
}

/// The matches outside the changed files, each place and identifier once.
pub open spec fn candidates_of(s: Seq<MatchView>, changed: Seq<Seq<char>>) -> Seq<MatchView>
    decreases s.len(),
{
    if s.len() == 0 {
        s
    } else {
        let rest = candidates_of(s.drop_last(), changed);
        let m = s.last();
        if changed.contains(m.path) || same_place(rest, m) {
            rest
        } else {
            rest.push(m)
        }
    }
}

/// One of the matches is of the same identifier at the same place.
pub open spec fn same_place(s: Seq<MatchView>, m: MatchView) -> bool {
    exists|k: int|
        0 <= k < s.len() && (#[trigger] s[k]).path == m.path && s[k].line == m.line && s[k].symbol
            == m.symbol
}

/// No candidate lies in a changed file.
pub proof fn law_candidates_are_unchanged(s: Seq<MatchView>, changed: Seq<Seq<char>>)
    ensures
        forall|k: int|
            0 <= k < candidates_of(s, changed).len() ==> !changed.contains(
                (#[trigger] candidates_of(s, changed)[k]).path,
            ),
    decreases s.len(),
{
    if s.len() > 0 {
        law_candidates_are_unchanged(s.drop_last(), changed);
        let rest = candidates_of(s.drop_last(), changed);
        assert forall|k: int| 0 <= k < candidates_of(s, changed).len() implies !changed.contains(
            (#[trigger] candidates_of(s, changed)[k]).path,
        ) by {
            if k < rest.len() {
                assert(candidates_of(s, changed)[k] == rest[k]);
            }
        }
    }
}

fn has_same_place(list: &Vec<SearchMatch>, m: &SearchMatch) -> (r: bool)
    ensures
        r == same_place(match_views(list@), m@),
{
    let ghost all = match_views(list@);
    let mut i: usize = 0;
    while i < list.len()
        invariant
            i <= list@.len(),
            all == match_views(list@),
            forall|k: int|
                0 <= k < i ==> !((#[trigger] all[k]).path == m@.path && all[k].line == m@.line
                    && all[k].symbol == m@.symbol),
        decreases list@.len() - i,
    {
        proof {
            assert(all[i as int] == list@[i as int]@);
        }
        if list[i].line == m.line && same_text(list[i].path.as_str(), m.path.as_str())
            && same_text(list[i].symbol.as_str(), m.symbol.as_str()) {
            return true;
        }
        i += 1;
    }
    false
}

/// The matches outside the changed files, each place and identifier once.
pub fn select_candidates(
    matches: &Vec<SearchMatch>,
    changed_files: &Vec<String>,
) -> (r: Vec<SearchMatch>)
    ensures
        match_views(r@) == candidates_of(match_views(matches@), views(changed_files@)),
{
    let ghost all = match_views(matches@);
    let mut r: Vec<SearchMatch> = Vec::new();
    let mut i: usize = 0;
    proof {
        assert(match_views(r@) =~= Seq::empty());
        assert(all.take(0) =~= Seq::empty());
    }
    while i < matches.len()
        invariant
            i <= matches@.len(),
            all == match_views(matches@),
            match_views(r@) == candidates_of(all.take(i as int), views(changed_files@)),
        decreases matches@.len() - i,
    {
        let ghost before = match_views(r@);
        let m = &matches[i];
        proof {
            assert(all.take(i + 1).drop_last() =~= all.take(i as int));
            assert(all.take(i + 1).last() == m@);
        }
        if !holds(changed_files, m.path.as_str()) && !has_same_place(&r, m) {
            r.push(m.clone());
            proof {
                assert(match_views(r@) =~= before.push(m@));
            }
        }
        i += 1;
    }
    proof {
        assert(all.take(all.len() as int) =~= all);
    }
    r
}

// ---------------------------------------------------------------------------
// What holds of it
// ---------------------------------------------------------------------------

/// Tests rank before definitions, those before configuration, and that before any other
/// reference.
pub proof fn law_matches_are_ranked(m: MatchView)
    ensures
        ({
            let path = lowercase(m.path);
            let test = has_text(path, "/tests/"@) || "tests/"@.is_prefix_of(path) || has_text(
                path,
                "_test."@,
            ) || has_text(path, ".test."@) || has_text(path, ".spec."@);
            &&& test ==> match_rank(m) == 0 && match_reason(m) == "test_reference"@
            &&& !test && defines(m.text, m.symbol) ==> match_rank(m) == 1 && match_reason(m)
                == "definition"@
            &&& !test && !defines(m.text, m.symbol) && configuration_path(path) ==> match_rank(m)
                == 2 && match_reason(m) == "configuration_reference"@
            &&& !test && !defines(m.text, m.symbol) && !configuration_path(path)
                ==> match_rank(m) == 3 && match_reason(m) == "reference"@
        }),
{
}

/// A line defines an identifier that stands in it behind a word for a definition.
pub proof fn law_definitions_are_recognised(before: Seq<char>, symbol: Seq<char>, after: Seq<char>)
    ensures
        defines(before + ("fn "@ + symbol) + after, symbol),
        defines(before + ("struct "@ + symbol) + after, symbol),
        defines(before + ("enum "@ + symbol) + after, symbol),
        defines(before + ("trait "@ + symbol) + after, symbol),
        defines(before + ("type "@ + symbol) + after, symbol),
        defines(before + ("const "@ + symbol) + after, symbol),
        defines(before + ("static "@ + symbol) + after, symbol),
        defines(before + ("def "@ + symbol) + after, symbol),
        defines(before + ("class "@ + symbol) + after, symbol),
        defines(before + ("function "@ + symbol) + after, symbol),
{
    lemma_stands_in(before, "fn "@ + symbol, after);
    lemma_stands_in(before, "struct "@ + symbol, after);
    lemma_stands_in(before, "enum "@ + symbol, after);
    lemma_stands_in(before, "trait "@ + symbol, after);
    lemma_stands_in(before, "type "@ + symbol, after);
    lemma_stands_in(before, "const "@ + symbol, after);
    lemma_stands_in(before, "static "@ + symbol, after);
    lemma_stands_in(before, "def "@ + symbol, after);
    lemma_stands_in(before, "class "@ + symbol, after);
    lemma_stands_in(before, "function "@ + symbol, after);
}

proof fn lemma_stands_in(before: Seq<char>, part: Seq<char>, after: Seq<char>)
    ensures
        has_text(before + part + after, part),
{
    let all = before + part + after;
    let at = before.len() as int;
    assert(all.subrange(at, at + part.len()) =~= part);
    assert(crate::text::occurs_at(all, part, at));
}

/// A line that does not hold an identifier does not define it.
pub proof fn law_definitions_name_the_symbol(line: Seq<char>, symbol: Seq<char>)
    requires
        !has_text(line, symbol),
    ensures
        !defines(line, symbol),
{
    lemma_behind_word(line, "fn "@, symbol);
    lemma_behind_word(line, "struct "@, symbol);
    lemma_behind_word(line, "enum "@, symbol);
    lemma_behind_word(line, "trait "@, symbol);
    lemma_behind_word(line, "type "@, symbol);
    lemma_behind_word(line, "const "@, symbol);
    lemma_behind_word(line, "static "@, symbol);
    lemma_behind_word(line, "def "@, symbol);
    lemma_behind_word(line, "class "@, symbol);
    lemma_behind_word(line, "function "@, symbol);
}

proof fn lemma_behind_word(line: Seq<char>, word: Seq<char>, symbol: Seq<char>)
    ensures
        has_text(line, word + symbol) ==> has_text(line, symbol),
{
    if has_text(line, word + symbol) {
        let at = choose|at: int| crate::text::occurs_at(line, word + symbol, at);
        let to = at + word.len();
        assert(line.subrange(to, to + symbol.len()) =~= symbol) by {
            assert forall|j: int| 0 <= j < symbol.len() implies #[trigger] line.subrange(
                to,
                to + symbol.len(),
            )[j] == symbol[j] by {
                assert(line.subrange(at, at + (word + symbol).len())[word.len() + j] == (word
                    + symbol)[word.len() + j]);
            }
        }
        assert(crate::text::occurs_at(line, symbol, to));
    }
}

/// An event is a match exactly if it says so and has a path below the place that was
/// searched, a line number and a line.
pub proof fn law_events_are_matches(e: JsonView, symbol: Seq<char>, origin: Seq<char>)
    ensures
        event_match(Some(e), symbol, origin) matches Some(m) ==> {
            &&& text_at(e, "type"@) == Some("match"@)
            &&& text_at(e, "data.path.text"@) == Some("./"@ + m.path)
            &&& unsigned_at(e, "data.line_number"@) matches Some(n) && n == m.line
            &&& text_at(e, "data.lines.text"@) matches Some(text) && m.text == trim_end_of(text)
            &&& m.symbol == symbol && m.origin == origin
        },
        text_at(e, "type"@) != Some("match"@) ==> event_match(Some(e), symbol, origin) is None,
        event_match(None, symbol, origin) is None,
        forall|path: Seq<char>|
            text_at(e, "type"@) == Some("match"@) && text_at(e, "data.path.text"@)
                == Some(#[trigger] ("./"@ + path)) && (unsigned_at(
                e,
                "data.line_number"@,
            ) matches Some(n) && n <= usize::MAX) && text_at(e, "data.lines.text"@) is Some
                ==> event_match(Some(e), symbol, origin) is Some,
{
    if let Some(m) = event_match(Some(e), symbol, origin) {
        crate::text::law_beginnings_and_ends_are_taken_off(
            text_at(e, "data.path.text"@)->0,
            "./"@,
        );
    }
    assert forall|path: Seq<char>|
        text_at(e, "type"@) == Some("match"@) && text_at(e, "data.path.text"@)
            == Some(#[trigger] ("./"@ + path)) && (unsigned_at(
            e,
            "data.line_number"@,
        ) matches Some(n) && n <= usize::MAX) && text_at(e, "data.lines.text"@)
            is Some implies event_match(Some(e), symbol, origin) is Some by {
        crate::text::law_beginnings_and_ends_are_taken_off(path, "./"@);
    }
}

/// Each line that reports a match gives one, in their order, and no other line does.
pub proof fn law_reported_matches(
    lines: Seq<Seq<char>>,
    line: Seq<char>,
    symbol: Seq<char>,
    origin: Seq<char>,
)
    ensures
        reported_matches(Seq::empty(), symbol, origin).len() == 0,
        event_match(json_document(line), symbol, origin) matches Some(m) ==> reported_matches(
            lines.push(line),
            symbol,
            origin,
        ) == reported_matches(lines, symbol, origin).push(m),
        event_match(json_document(line), symbol, origin) is None ==> reported_matches(
            lines.push(line),
            symbol,
            origin,
        ) == reported_matches(lines, symbol, origin),
{
    assert(lines.push(line).drop_last() =~= lines);
}

/// Matches are kept while there is room: up to 64 of them, in up to 32 files.
pub proof fn law_matches_are_kept_while_there_is_room(s: Seq<MatchView>, m: MatchView)
    ensures
        ({
            let before = bounded(s);
            let after = bounded(s.push(m));
            &&& before.len() < 64 && paths_of(before).len() < 32 ==> after == before.push(m)
            &&& before.len() < 64 && paths_of(before).contains(m.path) ==> after == before.push(m)
            &&& before.len() >= 64 ==> after == before
            &&& paths_of(before).len() >= 32 && !paths_of(before).contains(m.path) ==> after
                == before
        }),
        bounded(Seq::empty()).len() == 0,
{
    assert(s.push(m).drop_last() =~= s);
}

/// Where all matches fit, all are kept.
pub proof fn law_few_matches_are_all_kept(s: Seq<MatchView>)
    requires
        s.len() <= 32,
    ensures
        bounded(s) == s,
    decreases s.len(),
{
    if s.len() > 0 {
        law_few_matches_are_all_kept(s.drop_last());
        let kept = s.drop_last();
        crate::list::law_distinct(kept.map_values(|m: MatchView| m.path));
        assert(kept.push(s.last()) =~= s);
    }
}

/// Matches come by their rank, then by path and by line.
pub proof fn law_matches_come_by_rank(s: Seq<MatchView>, i: int, j: int)
    requires
        0 <= i < j < s.len(),
    ensures
        ({
            let a = sorted(s)[i];
            let b = sorted(s)[j];
            &&& match_rank(a) <= match_rank(b)
            &&& match_rank(a) == match_rank(b) ==> crate::order::text_le(a.path, b.path)
            &&& match_rank(a) == match_rank(b) && a.path == b.path ==> a.line <= b.line
        }),
{
    crate::order::law_sorted_is_in_order(s);
    crate::order::law_sorted_keeps_items(s);
    assert(sorted(s)[i].at_most(sorted(s)[j]));
}

/// A match is a candidate exactly if its file did not change and its place was not seen
/// before; candidates keep their order.
pub proof fn law_candidates(s: Seq<MatchView>, m: MatchView, changed: Seq<Seq<char>>)
    ensures
        ({
            let before = candidates_of(s, changed);
            let after = candidates_of(s.push(m), changed);
            let seen = exists|k: int|
                0 <= k < before.len() && (#[trigger] before[k]).path == m.path && before[k].line
                    == m.line && before[k].symbol == m.symbol;
            &&& !changed.contains(m.path) && !seen ==> after == before.push(m)
            &&& changed.contains(m.path) || seen ==> after == before
        }),
        candidates_of(Seq::empty(), changed).len() == 0,
{
    assert(s.push(m).drop_last() =~= s);
}

} // verus!
