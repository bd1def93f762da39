//! The excerpts of a repository that are shown with a change, and the report on how
//! they were found.
use vstd::prelude::*;

use crate::bytes::{byte_len, counted_bytes, fit, fitting};
use crate::order::{
    is_before, keys, lemma_text_before_total, lemma_text_le_transitive, sort, sorted, text_before,
    text_le, Ranked, Sortable,
};
use crate::search::{
    candidate_rank_and_reason, lemma_chain, match_rank, match_reason, match_views, MatchView,
    SearchMatch, EXCERPT_CONTEXT_LINES, MAX_SEMANTIC_EXCERPT_BYTES,
};
use crate::split::{lines, lines_of};
use crate::text::{concat3, join, joined, same_text, views};

verus! {

/// How many excerpts are shown at most.
pub const MAX_SEMANTIC_EXCERPTS: usize = 16;

/// How many bytes all excerpts take at most.
pub const MAX_SEMANTIC_CONTEXT_BYTES: usize = 40960;

/// How many excerpts of one file are shown at most.
pub const MAX_EXCERPTS_PER_PATH: usize = 2;

// ---------------------------------------------------------------------------
// One excerpt
// ---------------------------------------------------------------------------

/// An excerpt around a reference.
#[derive(Debug, PartialEq, Eq)]
pub struct RankedExcerpt {
    pub rank: u8,
    pub path: String,
    pub line: usize,
    pub reason: String,
    pub relation: String,
    pub contents: String,
    pub start_line: usize,
    pub end_line: usize,
    pub truncated: bool,
}

/// What an excerpt says. Excerpts are ordered by how telling they are, then by path,
/// line and relation.
pub struct ExcerptView {
    pub rank: u8,
    pub path: Seq<char>,
    pub line: usize,
    pub reason: Seq<char>,
    pub relation: Seq<char>,
    pub contents: Seq<char>,
    pub start_line: usize,
    pub end_line: usize,
    pub truncated: bool,
}

impl View for RankedExcerpt {
    type V = ExcerptView;

    open spec fn view(&self) -> ExcerptView {
        ExcerptView {
            rank: self.rank,
            path: self.path@,
            line: self.line,
            reason: self.reason@,
            relation: self.relation@,
            contents: self.contents@,
            start_line: self.start_line,
            end_line: self.end_line,
            truncated: self.truncated,
        }
    }
}

/// What excerpts say.
pub open spec fn excerpt_views(s: Seq<RankedExcerpt>) -> Seq<ExcerptView> {
    s.map_values(|e: RankedExcerpt| e@)
}

/// The first line of the excerpt around a line.
pub open spec fn excerpt_start(line: nat) -> nat {
    if line > EXCERPT_CONTEXT_LINES {
        (line - EXCERPT_CONTEXT_LINES) as nat
    } else {
        1
    }
}

/// The last line of the excerpt around a line of a file with `count` lines.
pub open spec fn excerpt_end(line: nat, count: nat) -> nat {
    if line + EXCERPT_CONTEXT_LINES <= count {
        line + EXCERPT_CONTEXT_LINES as nat
    } else {
        count
    }
}

/// The lines of the excerpt, each ended.
pub open spec fn excerpt_text(lines: Seq<Seq<char>>, line: nat) -> Seq<char> {
    joined(
        lines.subrange(
            excerpt_start(line) - 1,
            excerpt_end(line, lines.len()) as int,
        ),
        "\n"@,
    ).push('\n')
}

/// The excerpt around a match, or none where the file has no such line.
pub open spec fn excerpt_of(m: MatchView, source: Seq<char>, cut: bool) -> Option<ExcerptView> {
    let all = lines_of(source);
    if m.line == 0 || m.line > all.len() {
        None
    } else {
        let text = excerpt_text(all, m.line as nat);
        let long = counted_bytes(text) > MAX_SEMANTIC_EXCERPT_BYTES;
        Some(
            ExcerptView {
                rank: match_rank(m),
                path: m.path,
                line: m.line,
                reason: match_reason(m),
                relation: "symbol:"@ + m.symbol + ";changed_in:"@ + m.origin,
                contents: fitting(text, MAX_SEMANTIC_EXCERPT_BYTES as nat),
                start_line: excerpt_start(m.line as nat) as usize,
                end_line: excerpt_end(m.line as nat, all.len()) as usize,
                truncated: cut || long,
            },
        )
    }
}

/// The texts at the positions `from..to`.
pub fn texts_between(all: &Vec<String>, from: usize, to: usize) -> (r: Vec<String>)
    requires
        from <= to <= all@.len(),
    ensures
        views(r@) == views(all@).subrange(from as int, to as int),
{
    let mut r: Vec<String> = Vec::new();
    let mut i: usize = from;
    proof {
        assert(views(r@) =~= views(all@).subrange(from as int, from as int));
    }
    while i < to
        invariant
            from <= i <= to <= all@.len(),
            views(r@) == views(all@).subrange(from as int, i as int),
        decreases to - i,
    {
        let ghost before = views(r@);
        r.push(all[i].clone());
        proof {
            assert(views(r@) =~= before.push(all@[i as int]@));
            assert(views(all@).subrange(from as int, i + 1) =~= views(all@).subrange(
                from as int,
                i as int,
            ).push(views(all@)[i as int]));
        }
        i += 1;
    }
    r
}

/// The excerpt around a candidate, or none where the file has no such line.
pub fn rank_excerpt(
    candidate: &SearchMatch,
    source: &str,
    file_truncated: bool,
) -> (r: Option<RankedExcerpt>)
    ensures
        match r {
            Some(e) => excerpt_of(candidate@, source@, file_truncated) == Some(e@),
            None => excerpt_of(candidate@, source@, file_truncated) is None,
        },
{
    let rank_and_reason = candidate_rank_and_reason(candidate);
    let all = lines(source);
    proof {
        assert(views(all@).len() == all@.len());
    }
    let line: usize = candidate.line;
    if line == 0 || line > all.len() {
        return None;
    }
    let start: usize = if line > EXCERPT_CONTEXT_LINES {
        line - EXCERPT_CONTEXT_LINES
    } else {
        1
    };
    let end: usize = if all.len() - line >= EXCERPT_CONTEXT_LINES {
        line + EXCERPT_CONTEXT_LINES
    } else {
        all.len()
    };
    let shown = texts_between(&all, start - 1, end);
    let mut text = join(&shown, "\n");
    text.push('\n');
    let long = byte_len(text.as_str()) > MAX_SEMANTIC_EXCERPT_BYTES;
    let contents = fit(text.as_str(), MAX_SEMANTIC_EXCERPT_BYTES);
    let mut relation = concat3("symbol:", candidate.symbol.as_str(), ";changed_in:");
    relation.append(candidate.origin.as_str());
    Some(
        RankedExcerpt {
            rank: rank_and_reason.0,
            path: candidate.path.clone(),
            line,
            reason: rank_and_reason.1.to_owned(),
            relation,
            contents,
            start_line: start,
            end_line: end,
            truncated: file_truncated || long,
        },
    )
}

impl Ranked for ExcerptView {
    open spec fn at_most(self, other: Self) -> bool {
        if self.rank != other.rank {
            self.rank < other.rank
        } else if self.path != other.path {
            text_before(self.path, other.path)
        } else if self.line != other.line {
            self.line < other.line
        } else {
            text_le(self.relation, other.relation)
        }
    }

    proof fn total(a: Self, b: Self) {
        lemma_text_before_total(a.path, b.path);
        lemma_text_before_total(a.relation, b.relation);
    }

    proof fn transitive(a: Self, b: Self, c: Self) {
        lemma_chain(a.path, b.path, c.path);
        if text_le(a.relation, b.relation) && text_le(b.relation, c.relation) {
            lemma_text_le_transitive(a.relation, b.relation, c.relation);
        }
    }
}

impl Sortable for RankedExcerpt {
    type Key = ExcerptView;

    open spec fn key(self) -> ExcerptView {
        self@
    }

    fn is_at_most(&self, other: &Self) -> (r: bool) {
        if self.rank != other.rank {
            return self.rank < other.rank;
        }
        if !same_text(self.path.as_str(), other.path.as_str()) {
            return is_before(self.path.as_str(), other.path.as_str());
        }
        if self.line != other.line {
            return self.line < other.line;
        }
        self.relation.is_at_most(&other.relation)
    }
}

// ---------------------------------------------------------------------------
// Which excerpts are shown
// ---------------------------------------------------------------------------

/// What has been selected.
pub struct Selection {
    pub shown: Seq<ExcerptView>,
    pub bytes: nat,
    /// Something was left out for want of room.
    pub cut: bool,
    /// Nothing more is looked at.
    pub full: bool,
}

/// How many of the excerpts are of a path.
pub open spec fn shown_of(s: Seq<ExcerptView>, path: Seq<char>) -> nat
    decreases s.len(),
{
    if s.len() == 0 {
        0
    } else {
        shown_of(s.drop_last(), path) + if s.last().path == path {
            1nat
        } else {
            0nat
        }
    }
}

/// Two excerpts share a line of a file.
pub open spec fn overlap(a: ExcerptView, b: ExcerptView) -> bool {
    a.path == b.path && a.start_line <= b.end_line && a.end_line >= b.start_line
}

/// One of the excerpts shares a line with `e`.
pub open spec fn overlaps_one(s: Seq<ExcerptView>, e: ExcerptView) -> bool {
    exists|k: int| 0 <= k < s.len() && overlap(e, #[trigger] s[k])
}

/// What has been selected once `e` is looked at too.
pub open spec fn selection_step(s: Selection, e: ExcerptView) -> Selection {
    if s.full {
        s
    } else if s.shown.len() >= MAX_SEMANTIC_EXCERPTS || s.bytes >= MAX_SEMANTIC_CONTEXT_BYTES {
        Selection { cut: true, full: true, ..s }
    } else if shown_of(s.shown, e.path) >= MAX_EXCERPTS_PER_PATH || overlaps_one(s.shown, e) {
        s
    } else if counted_bytes(e.contents) > MAX_SEMANTIC_CONTEXT_BYTES - s.bytes {
        Selection { cut: true, ..s }
    } else {
        Selection {
            shown: s.shown.push(e),
            bytes: s.bytes + counted_bytes(e.contents),
            ..s
        }
    }
}

/// What is selected of these excerpts, the first before the others.
pub open spec fn selection(s: Seq<ExcerptView>) -> Selection
    decreases s.len(),
{
    if s.len() == 0 {
        Selection { shown: Seq::empty(), bytes: 0, cut: false, full: false }
    } else {
        selection_step(selection(s.drop_last()), s.last())
    }
}

/// The bytes of all excerpts.
pub open spec fn total_bytes(s: Seq<ExcerptView>) -> nat
    decreases s.len(),
{
    if s.len() == 0 {
        0
    } else {
        total_bytes(s.drop_last()) + counted_bytes(s.last().contents)
    }
}

/// What is selected is bounded in number and in bytes, has at most two excerpts of a
/// file and no two that share a line, and all of it was offered.
pub proof fn law_selection(s: Seq<ExcerptView>)
    ensures
        selection(s).shown.len() <= MAX_SEMANTIC_EXCERPTS,
        selection(s).bytes <= MAX_SEMANTIC_CONTEXT_BYTES,
        selection(s).bytes == total_bytes(selection(s).shown),
        forall|path: Seq<char>|
            #[trigger] shown_of(selection(s).shown, path) <= MAX_EXCERPTS_PER_PATH,
        forall|i: int, j: int|
            0 <= i < j < selection(s).shown.len() ==> !overlap(
                #[trigger] selection(s).shown[j],
                #[trigger] selection(s).shown[i],
            ),
        forall|i: int|
            0 <= i < selection(s).shown.len() ==> s.contains(#[trigger] selection(s).shown[i]),
    decreases s.len(),
{
    if s.len() > 0 {
        let before = selection(s.drop_last());
        let now = selection(s);
        let e = s.last();
        law_selection(s.drop_last());
        if now.shown.len() > before.shown.len() {
            assert(now.shown.drop_last() =~= before.shown);
            assert forall|path: Seq<char>| #[trigger]
                shown_of(now.shown, path) <= MAX_EXCERPTS_PER_PATH by {
                assert(shown_of(before.shown, path) <= MAX_EXCERPTS_PER_PATH);
            }
            assert forall|i: int, j: int| 0 <= i < j < now.shown.len() implies !overlap(
                #[trigger] now.shown[j],
                #[trigger] now.shown[i],
            ) by {
                assert(now.shown[i] == before.shown[i]);
                if j < before.shown.len() {
                    assert(now.shown[j] == before.shown[j]);
                }
            }
        }
        assert forall|i: int| 0 <= i < now.shown.len() implies s.contains(
            #[trigger] now.shown[i],
        ) by {
            if i < before.shown.len() {
                assert(s.drop_last().contains(before.shown[i]));
                let k = choose|k: int|
                    0 <= k < s.drop_last().len() && s.drop_last()[k] == before.shown[i];
                assert(s[k] == now.shown[i]);
            } else {
                assert(s[s.len() - 1] == e);
            }
        }
    }
}

fn count_of_path(s: &Vec<RankedExcerpt>, path: &str) -> (r: usize)
    ensures
        r == shown_of(excerpt_views(s@), path@),
{
    let ghost all = excerpt_views(s@);
    let mut n: usize = 0;
    let mut i: usize = 0;
    while i < s.len()
        invariant
            i <= s@.len(),
            n <= i,
            all == excerpt_views(s@),
            n == shown_of(all.take(i as int), path@),
        decreases s@.len() - i,
    {
        proof {
            assert(all.take(i + 1).drop_last() =~= all.take(i as int));
            assert(all.take(i + 1).last() == s@[i as int]@);
        }
        if same_text(s[i].path.as_str(), path) {
            n += 1;
        }
        i += 1;
    }
    proof {
        assert(all.take(all.len() as int) =~= all);
    }
    n
}

fn shares_a_line(s: &Vec<RankedExcerpt>, e: &RankedExcerpt) -> (r: bool)
    ensures
        r == overlaps_one(excerpt_views(s@), e@),
{
    let ghost all = excerpt_views(s@);
    let mut i: usize = 0;
    while i < s.len()
        invariant
            i <= s@.len(),
            all == excerpt_views(s@),
            forall|k: int| 0 <= k < i ==> !overlap(e@, #[trigger] all[k]),
        decreases s@.len() - i,
    {
        proof {
            assert(all[i as int] == s@[i as int]@);
        }
        if e.start_line <= s[i].end_line && e.end_line >= s[i].start_line && same_text(
            e.path.as_str(),
            s[i].path.as_str(),
        ) {
            return true;
        }
        i += 1;
    }
    false
}

/// The excerpts that are shown, how many bytes they take, and whether some were left
/// out for want of room.
pub fn select_excerpts(ranked: Vec<RankedExcerpt>) -> (r: (Vec<RankedExcerpt>, usize, bool))
    ensures
        ({
            let s = selection(sorted(excerpt_views(ranked@)));
            &&& excerpt_views(r.0@) == s.shown
            &&& r.1 == s.bytes
            &&& r.2 == s.cut
        }),
{
    proof {
        assert(keys(ranked@) =~= excerpt_views(ranked@));
    }
    let ghost order = sorted(excerpt_views(ranked@));
    let ordered = sort(ranked);
    proof {
        assert(keys(ordered@) =~= excerpt_views(ordered@));
    }
    let mut shown: Vec<RankedExcerpt> = Vec::new();
    let mut bytes: usize = 0;
    let mut cut = false;
    let mut full = false;
    let mut i: usize = 0;
    proof {
        assert(excerpt_views(shown@) =~= Seq::empty());
        assert(order.take(0) =~= Seq::empty());
    }
    while i < ordered.len()
        invariant
            i <= ordered@.len(),
            order == excerpt_views(ordered@),
            bytes <= MAX_SEMANTIC_CONTEXT_BYTES,
            selection(order.take(i as int)) == (Selection {
                shown: excerpt_views(shown@),
                bytes: bytes as nat,
                cut,
                full,
            }),
        decreases ordered@.len() - i,
    {
        let ghost before = excerpt_views(shown@);
        let e = &ordered[i];
        proof {
            assert(order.take(i + 1).drop_last() =~= order.take(i as int));
            assert(order.take(i + 1).last() == e@);
        }
        if !full {
            if shown.len() >= MAX_SEMANTIC_EXCERPTS || bytes >= MAX_SEMANTIC_CONTEXT_BYTES {
                cut = true;
                full = true;
            } else if count_of_path(&shown, e.path.as_str()) < MAX_EXCERPTS_PER_PATH
                && !shares_a_line(&shown, e) {
                let size: usize = byte_len(e.contents.as_str());
                if size > MAX_SEMANTIC_CONTEXT_BYTES - bytes {
                    cut = true;
                } else {
                    bytes += size;
                    shown.push(
                        RankedExcerpt {
                            rank: e.rank,
                            path: e.path.clone(),
                            line: e.line,
                            reason: e.reason.clone(),
                            relation: e.relation.clone(),
                            contents: e.contents.clone(),
                            start_line: e.start_line,
                            end_line: e.end_line,
                            truncated: e.truncated,
                        },
                    );
                    proof {
                        assert(excerpt_views(shown@) =~= before.push(e@));
                    }
                }
            }
        }
        i += 1;
    }
    proof {
        assert(order.take(order.len() as int) =~= order);
    }
    (shown, bytes, cut)
}

// ---------------------------------------------------------------------------
// Ranking what was loaded
// ---------------------------------------------------------------------------

/// A file that was loaded, and whether it was cut.
pub type Loaded = Option<(Seq<char>, bool)>;

/// The excerpts around the candidates, for each the file as it was loaded.
pub open spec fn excerpts_of(s: Seq<MatchView>, loaded: Seq<Loaded>) -> Seq<ExcerptView>
    decreases s.len(),
{
    if s.len() == 0 {
        Seq::empty()
    } else {
        let rest = excerpts_of(s.drop_last(), loaded.drop_last());
        match loaded.last() {
            Some((source, cut)) => match excerpt_of(s.last(), source, cut) {
                Some(e) => rest.push(e),
                None => rest,
            },
            None => rest,
        }
    }
}

/// The view of a file that was loaded.
pub open spec fn loaded_view(s: Option<(String, bool)>) -> Loaded {
    match s {
        Some((source, cut)) => Some((source@, cut)),
        None => None,
    }
}

/// The views of files that were loaded.
pub open spec fn loaded_views(s: Seq<Option<(String, bool)>>) -> Seq<Loaded> {
    s.map_values(|f: Option<(String, bool)>| loaded_view(f))
}

/// A file as it is kept: cut to the number of bytes that are read of it.
pub open spec fn kept_source(source: Seq<char>) -> (Seq<char>, bool) {
    (
        fitting(source, crate::semantic::MAX_SEMANTIC_FILE_BYTES as nat),
        counted_bytes(source) > crate::semantic::MAX_SEMANTIC_FILE_BYTES,
    )
}

/// A file as it is kept: cut to the number of bytes that are read of it, and whether it
/// was cut.
pub fn load_semantic_source(source: Option<String>) -> (r: Option<(String, bool)>)
    ensures
        match source {
            Some(text) => loaded_view(r) == Some(kept_source(text@)),
            None => r is None,
        },
{
    match source {
        Some(text) => {
            let cut = byte_len(text.as_str()) > crate::semantic::MAX_SEMANTIC_FILE_BYTES;
            Some((fit(text.as_str(), crate::semantic::MAX_SEMANTIC_FILE_BYTES), cut))
        },
        None => None,
    }
}

/// Cuts a text to at most `max_bytes` bytes, between two characters.
pub fn truncate_utf8(value: &mut String, max_bytes: usize)
    ensures
        final(value)@ == fitting(old(value)@, max_bytes as nat),
{
    *value = fit(value.as_str(), max_bytes);
}

/// The excerpts around the candidates, for each the file as it was loaded.
pub fn rank_candidates(
    candidates: &Vec<SearchMatch>,
    loaded: &Vec<Option<(String, bool)>>,
) -> (r: Vec<RankedExcerpt>)
    requires
        candidates@.len() == loaded@.len(),
    ensures
        excerpt_views(r@) == excerpts_of(match_views(candidates@), loaded_views(loaded@)),
{
    let ghost all = match_views(candidates@);
    let ghost files = loaded_views(loaded@);
    let mut r: Vec<RankedExcerpt> = Vec::new();
    let mut i: usize = 0;
    proof {
        assert(excerpt_views(r@) =~= Seq::empty());
    }
    while i < candidates.len()
        invariant
            i <= candidates@.len(),
            candidates@.len() == loaded@.len(),
            all == match_views(candidates@),
            files == loaded_views(loaded@),
            excerpt_views(r@) == excerpts_of(all.take(i as int), files.take(i as int)),
        decreases candidates@.len() - i,
    {
        let ghost before = excerpt_views(r@);
        proof {
            assert(all.take(i + 1).drop_last() =~= all.take(i as int));
            assert(all.take(i + 1).last() == candidates@[i as int]@);
            assert(files.take(i + 1).drop_last() =~= files.take(i as int));
            assert(files.take(i + 1).last() == loaded_view(loaded@[i as int]));
        }
        if let Some(file) = &loaded[i] {
            if let Some(e) = rank_excerpt(&candidates[i], file.0.as_str(), file.1) {
                r.push(e);
                proof {
                    assert(excerpt_views(r@) =~= before.push(e@));
                }
            }
        }
        i += 1;
    }
    proof {
        assert(all.take(all.len() as int) =~= all);
        assert(files.take(files.len() as int) =~= files);
    }
    r
}

// ---------------------------------------------------------------------------
// What holds of it
// ---------------------------------------------------------------------------

/// An excerpt is three lines around the one that it is of, as far as the file has them, and
/// there is one exactly if the file has that line.
pub proof fn law_excerpts_show_the_line(m: MatchView, source: Seq<char>, cut: bool)
    ensures
        excerpt_of(m, source, cut) is Some <==> 1 <= m.line <= lines_of(source).len(),
        excerpt_of(m, source, cut) matches Some(e) ==> {
            let all = lines_of(source);
            &&& e.path == m.path && e.line == m.line
            &&& 1 <= e.start_line <= m.line
            &&& m.line <= e.end_line <= all.len() || all.len() > usize::MAX
            &&& m.line > 3 ==> e.start_line == m.line - 3
            &&& m.line <= 3 ==> e.start_line == 1
            &&& m.line + 3 <= all.len() && m.line + 3 <= usize::MAX ==> e.end_line == m.line + 3
            &&& m.line + 3 > all.len() && all.len() <= usize::MAX ==> e.end_line == all.len()
            &&& e.truncated ==> cut || counted_bytes(excerpt_text(all, m.line as nat)) > 4096
            &&& cut ==> e.truncated
            &&& counted_bytes(excerpt_text(all, m.line as nat)) > 4096 ==> e.truncated
            &&& e.contents.is_prefix_of(excerpt_text(all, m.line as nat))
            &&& crate::bytes::utf8_len(e.contents) <= 4096
            &&& e.rank == match_rank(m) && e.reason == match_reason(m)
            &&& e.relation == "symbol:"@ + m.symbol + ";changed_in:"@ + m.origin
        },
{
    let all = lines_of(source);
    crate::bytes::law_fitting(excerpt_text(all, m.line as nat), 4096);
}

/// The text of an excerpt holds the line itself.
pub proof fn law_excerpts_hold_the_line(lines: Seq<Seq<char>>, line: nat)
    requires
        1 <= line <= lines.len(),
    ensures
        ({
            let part = lines.subrange(
                if line > 3 {
                    line - 4
                } else {
                    0
                },
                if line + 3 <= lines.len() {
                    line as int + 3
                } else {
                    lines.len() as int
                },
            );
            part.contains(lines[line - 1]) && excerpt_text(lines, line) == joined(part, "\n"@).push(
                '\n',
            )
        }),
{
    let a = if line > 3 {
        line - 4
    } else {
        0
    };
    let b = if line + 3 <= lines.len() {
        line as int + 3
    } else {
        lines.len() as int
    };
    let part = lines.subrange(a, b);
    assert(part[line - 1 - a] == lines[line - 1]);
}

/// An excerpt that can be shown is shown: while there is room, one that neither meets
/// another nor is the third of its file, and fits, is shown behind those before it.
pub proof fn law_excerpts_that_fit_are_shown(s: Seq<ExcerptView>, e: ExcerptView)
    ensures
        ({
            let before = selection(s);
            let after = selection(s.push(e));
            let room = !before.full && before.shown.len() < 16 && before.bytes < 40960;
            let apart = shown_of(before.shown, e.path) < 2 && forall|k: int|
                0 <= k < before.shown.len() ==> !((#[trigger] before.shown[k]).path == e.path
                    && before.shown[k].start_line <= e.end_line && e.start_line
                    <= before.shown[k].end_line);
            let fits = before.bytes + counted_bytes(e.contents) <= 40960;
            &&& room && apart && fits ==> after.shown == before.shown.push(e) && after.bytes
                == before.bytes + counted_bytes(e.contents) && after.cut == before.cut
            &&& !(room && apart && fits) ==> after.shown == before.shown && after.bytes
                == before.bytes
            &&& room && apart && !fits ==> after.cut
            &&& room && !apart ==> after == before
            &&& !room && !before.full ==> after.cut && after.full
        }),
        selection(Seq::empty()).shown.len() == 0,
        !selection(Seq::empty()).cut && !selection(Seq::empty()).full,
{
    assert(s.push(e).drop_last() =~= s);
    let before = selection(s);
    if overlaps_one(before.shown, e) {
        let k = choose|k: int| 0 <= k < before.shown.len() && overlap(e, #[trigger] before.shown[k]);
        assert(before.shown[k].path == e.path);
    }
    assert forall|k: int|
        0 <= k < before.shown.len() && (#[trigger] before.shown[k]).path == e.path
            && before.shown[k].start_line <= e.end_line && e.start_line
            <= before.shown[k].end_line implies overlaps_one(before.shown, e) by {
        assert(overlap(e, before.shown[k]));
    }
}

/// How many excerpts are of a file.
pub proof fn law_excerpts_of_a_file(s: Seq<ExcerptView>, e: ExcerptView, path: Seq<char>)
    ensures
        shown_of(Seq::empty(), path) == 0,
        e.path == path ==> shown_of(s.push(e), path) == shown_of(s, path) + 1,
        e.path != path ==> shown_of(s.push(e), path) == shown_of(s, path),
{
    assert(s.push(e).drop_last() =~= s);
}

/// Excerpts come by their rank, then by path, line and relation.
pub proof fn law_excerpts_are_ranked(s: Seq<ExcerptView>, i: int, j: int)
    requires
        0 <= i < j < s.len(),
    ensures
        ({
            let a = sorted(s)[i];
            let b = sorted(s)[j];
            &&& a.rank <= b.rank
            &&& a.rank == b.rank ==> crate::order::text_le(a.path, b.path)
            &&& a.rank == b.rank && a.path == b.path ==> a.line <= b.line
        }),
{
    crate::order::law_sorted_is_in_order(s);
    crate::order::law_sorted_keeps_items(s);
    assert(sorted(s)[i].at_most(sorted(s)[j]));
}

/// Each match whose file was read and has its line gives one excerpt, in their order.
pub proof fn law_matches_give_excerpts(
    s: Seq<MatchView>,
    loaded: Seq<Loaded>,
    m: MatchView,
    file: Loaded,
)
    requires
        s.len() == loaded.len(),
    ensures
        excerpts_of(Seq::empty(), Seq::empty()).len() == 0,
        file is None ==> excerpts_of(s.push(m), loaded.push(file)) == excerpts_of(s, loaded),
        file matches Some((source, cut)) ==> (excerpt_of(m, source, cut) matches Some(e)
            ==> excerpts_of(s.push(m), loaded.push(file)) == excerpts_of(s, loaded).push(e)),
        file matches Some((source, cut)) ==> (excerpt_of(m, source, cut) is None ==> excerpts_of(
            s.push(m),
            loaded.push(file),
        ) == excerpts_of(s, loaded)),
{
    assert(s.push(m).drop_last() =~= s);
    assert(loaded.push(file).drop_last() =~= loaded);
}

/// A source is cut to what fits, and it is known whether it was.
pub proof fn law_sources_are_cut(source: Seq<char>)
    ensures
        kept_source(source).0.is_prefix_of(source),
        crate::bytes::utf8_len(kept_source(source).0) <= 262144,
        crate::bytes::utf8_len(source) <= 262144 ==> kept_source(source) == (source, false),
        crate::bytes::utf8_len(source) > 262144 ==> kept_source(source).1,
{
    crate::bytes::law_fitting(source, 262144);
}

/// An excerpt reaches from three lines before its line to three behind it, as far as the
/// file does.
pub proof fn law_excerpts_reach_as_far(line: nat, count: nat)
    requires
        1 <= line <= count,
    ensures
        1 <= excerpt_start(line) <= line <= excerpt_end(line, count) <= count,
        excerpt_start(line) == 1 || line - excerpt_start(line) == 3,
        line - excerpt_start(line) <= 3,
        excerpt_end(line, count) == count || excerpt_end(line, count) - line == 3,
        excerpt_end(line, count) - line <= 3,
{
}

} // verus!
