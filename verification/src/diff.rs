//! Unified diffs: which lines they remove and add, and what replaced what.
use vstd::prelude::*;

use crate::number::{decimal_of, parse_unsigned, parse_up_to};
use crate::split::{lines, lines_of, split, split_at_char, trim, trimmed, words, words_of};
use crate::text::{
    after_prefix, chars_of, join, joined, opt_view, same_text, starts_with, strip_prefix, text_of,
    views,
};

verus! {

/// The side of a diff that a piece of evidence speaks of.
#[derive(Debug, Clone, Copy, PartialEq, Eq, Structural)]
pub enum FindingEvidenceSide {
    Old,
    New,
}

/// A line of the repository that a finding rests on.
#[derive(Debug, PartialEq, Eq)]
pub struct FindingEvidence {
    pub path: String,
    pub side: FindingEvidenceSide,
    pub line: u32,
    pub excerpt: String,
    pub reason: String,
}

/// What a piece of evidence says.
pub struct EvidenceView {
    pub path: Seq<char>,
    pub side: FindingEvidenceSide,
    pub line: u32,
    pub excerpt: Seq<char>,
    pub reason: Seq<char>,
}

impl View for FindingEvidence {
    type V = EvidenceView;

    open spec fn view(&self) -> EvidenceView {
        EvidenceView {
            path: self.path@,
            side: self.side,
            line: self.line,
            excerpt: self.excerpt@,
            reason: self.reason@,
        }
    }
}

impl Clone for FindingEvidence {
    fn clone(&self) -> (r: Self)
        ensures
            r@ == self@,
    {
        FindingEvidence {
            path: self.path.clone(),
            side: self.side,
            line: self.line,
            excerpt: self.excerpt.clone(),
            reason: self.reason.clone(),
        }
    }
}

/// What a list of evidence says.
pub open spec fn evidence_views(s: Seq<FindingEvidence>) -> Seq<EvidenceView> {
    s.map_values(|e: FindingEvidence| e@)
}

// ---------------------------------------------------------------------------
// Headers
// ---------------------------------------------------------------------------

/// The path that a file header names, or none for a file that does not exist.
pub open spec fn diff_path(raw: Seq<char>) -> Option<Seq<char>> {
    let path = trimmed(split_at_char(raw, '\t')[0]);
    if path == "/dev/null"@ {
        None
    } else if "a/"@.is_prefix_of(path) {
        Some(path.skip("a/"@.len() as int))
    } else if "b/"@.is_prefix_of(path) {
        Some(path.skip("b/"@.len() as int))
    } else {
        Some(path)
    }
}

/// The path that a file header names, or none for a file that does not exist.
pub fn parse_diff_path(raw: &str) -> (r: Option<String>)
    ensures
        opt_view(r) == diff_path(raw@),
{
    let fields = split(raw, '\t');
    proof {
        assert(views(fields@)[0] == fields@[0]@);
    }
    let path = trim(fields[0].as_str());
    if same_text(path.as_str(), "/dev/null") {
        return None;
    }
    match strip_prefix(path.as_str(), "a/") {
        Some(rest) => Some(rest),
        None => match strip_prefix(path.as_str(), "b/") {
            Some(rest) => Some(rest),
            None => Some(path),
        },
    }
}

/// The number up to `max` that a text stands for, as a line number.
pub open spec fn line_number(s: Seq<char>) -> Option<u32> {
    match parse_unsigned(s, u32::MAX as nat) {
        Some(n) => Some(n as u32),
        None => None,
    }
}

/// Where the ranges of a hunk header start: what its first words say, each later
/// range taking the place of an earlier one on its side.
pub open spec fn hunk_starts(words: Seq<Seq<char>>) -> (Option<u32>, Option<u32>)
    decreases words.len(),
{
    if words.len() == 0 {
        (None, None)
    } else {
        let (old_start, new_start) = hunk_starts(words.drop_last());
        let word = words.last();
        match after_prefix(word, seq!['-']) {
            Some(range) => (line_number(split_at_char(range, ',')[0]), new_start),
            None => match after_prefix(word, seq!['+']) {
                Some(range) => (old_start, line_number(split_at_char(range, ',')[0])),
                None => (old_start, new_start),
            },
        }
    }
}

fn range_start(range: &str) -> (r: Option<u32>)
    ensures
        r == line_number(split_at_char(range@, ',')[0]),
{
    let fields = split(range, ',');
    proof {
        assert(views(fields@)[0] == fields@[0]@);
    }
    match parse_up_to(fields[0].as_str(), u32::MAX as u64) {
        Some(n) => Some(n as u32),
        None => None,
    }
}

/// Where the old and the new range of a hunk header start.
pub fn parse_diff_hunk_starts(header: &str) -> (r: (Option<u32>, Option<u32>))
    ensures
        r == hunk_starts(words_of(header@)),
{
    let parts = words(header);
    let mut old_start: Option<u32> = None;
    let mut new_start: Option<u32> = None;
    let mut i: usize = 0;
    while i < parts.len()
        invariant
            i <= parts@.len(),
            views(parts@) == words_of(header@),
            (old_start, new_start) == hunk_starts(views(parts@).take(i as int)),
        decreases parts@.len() - i,
    {
        proof {
            let now = views(parts@).take(i + 1);
            assert(now.drop_last() =~= views(parts@).take(i as int));
            assert(now.last() == parts@[i as int]@);
            reveal_strlit("-");
            reveal_strlit("+");
            assert("-"@ =~= seq!['-']);
            assert("+"@ =~= seq!['+']);
        }
        match strip_prefix(parts[i].as_str(), "-") {
            Some(range) => {
                old_start = range_start(range.as_str());
            },
            None => match strip_prefix(parts[i].as_str(), "+") {
                Some(range) => {
                    new_start = range_start(range.as_str());
                },
                None => {},
            },
        }
        i += 1;
    }
    proof {
        assert(views(parts@).take(parts@.len() as int) =~= views(parts@));
    }
    (old_start, new_start)
}

/// The words of a line with one space between them.
pub open spec fn normalized(line: Seq<char>) -> Seq<char> {
    joined(words_of(line), " "@)
}

/// The words of a line with one space between them.
pub fn normalize_evidence_line(line: &str) -> (r: String)
    ensures
        r@ == normalized(line@),
{
    let parts = words(line);
    join(&parts, " ")
}

// ---------------------------------------------------------------------------
// Changed lines
// ---------------------------------------------------------------------------

/// A line of a diff that adds or removes, and is no file header.
pub open spec fn changes_a_line(line: Seq<char>) -> bool {
    ("+"@.is_prefix_of(line) && !"+++"@.is_prefix_of(line)) || ("-"@.is_prefix_of(line)
        && !"---"@.is_prefix_of(line))
}

/// How many lines of a diff add or remove.
pub open spec fn changed_lines(lines: Seq<Seq<char>>) -> nat
    decreases lines.len(),
{
    if lines.len() == 0 {
        0
    } else {
        changed_lines(lines.drop_last()) + if changes_a_line(lines.last()) {
            1nat
        } else {
            0nat
        }
    }
}

/// How many lines of a diff add or remove, up to `u32::MAX`.
pub fn count_changed_diff_lines(diff: &str) -> (r: u32)
    ensures
        r == if changed_lines(lines_of(diff@)) <= u32::MAX {
            changed_lines(lines_of(diff@))
        } else {
            u32::MAX as nat
        },
{
    let all = lines(diff);
    let mut count: usize = 0;
    let mut i: usize = 0;
    while i < all.len()
        invariant
            i <= all@.len(),
            count <= i,
            views(all@) == lines_of(diff@),
            count == changed_lines(views(all@).take(i as int)),
        decreases all@.len() - i,
    {
        proof {
            assert(views(all@).take(i + 1).drop_last() =~= views(all@).take(i as int));
            assert(views(all@).take(i + 1).last() == all@[i as int]@);
        }
        let line = all[i].as_str();
        if (starts_with(line, "+") && !starts_with(line, "+++")) || (starts_with(line, "-")
            && !starts_with(line, "---")) {
            count += 1;
        }
        i += 1;
    }
    proof {
        assert(views(all@).take(all@.len() as int) =~= views(all@));
    }
    if count <= u32::MAX as usize {
        count as u32
    } else {
        u32::MAX
    }
}

// ---------------------------------------------------------------------------
// Evidence in a diff
// ---------------------------------------------------------------------------

/// A place in a file.
pub type Place = (Seq<char>, u32);

/// A line that a diff shows on one side.
pub struct ShownLine {
    pub side: FindingEvidenceSide,
    pub path: Seq<char>,
    pub line: u32,
    pub text: Seq<char>,
}

/// What has been read of a diff.
pub struct DiffState {
    pub old_path: Option<Seq<char>>,
    pub new_path: Option<Seq<char>>,
    pub old_line: Option<u32>,
    pub new_line: Option<u32>,
    /// The removed lines of the block of changes that is being read.
    pub pending: Seq<Place>,
    /// The block has added lines.
    pub block_adds: bool,
    /// The removed and added lines, in the order of the diff.
    pub shown: Seq<ShownLine>,
    /// Each removed line with each line that replaced it.
    pub replaced: Seq<(Place, Place)>,
}

/// The number of the line that follows, unless there is none.
pub open spec fn following(n: Option<u32>) -> Option<u32> {
    match n {
        Some(k) => if k < u32::MAX {
            Some((k + 1) as u32)
        } else {
            None
        },
        None => None,
    }
}

/// Each pending line paired with the line that was added.
pub open spec fn paired(pending: Seq<Place>, added: Place) -> Seq<(Place, Place)> {
    pending.map_values(|p: Place| (p, added))
}

/// No block of changes is being read.
pub open spec fn block_closed(s: DiffState) -> DiffState {
    DiffState { pending: Seq::empty(), block_adds: false, ..s }
}

/// What has been read once `line` is read too.
pub open spec fn diff_step(s: DiffState, line: Seq<char>) -> DiffState {
    match after_prefix(line, "--- "@) {
        Some(path) => DiffState { old_path: diff_path(path), ..block_closed(s) },
        None => match after_prefix(line, "+++ "@) {
            Some(path) => DiffState { new_path: diff_path(path), ..block_closed(s) },
            None => if "@@"@.is_prefix_of(line) {
                let (old_line, new_line) = hunk_starts(words_of(line));
                DiffState { old_line, new_line, ..block_closed(s) }
            } else if line.len() > 0 && line[0] == '+' {
                added_step(s, line.skip(1))
            } else if line.len() > 0 && line[0] == '-' {
                removed_step(s, line.skip(1))
            } else if line.len() > 0 && line[0] == ' ' {
                DiffState {
                    old_line: following(s.old_line),
                    new_line: following(s.new_line),
                    ..block_closed(s)
                }
            } else {
                block_closed(s)
            },
        },
    }
}

/// What has been read once an added line is read too.
pub open spec fn added_step(s: DiffState, text: Seq<char>) -> DiffState {
    match (s.new_path, s.new_line) {
        (Some(path), Some(line)) => DiffState {
            shown: s.shown.push(ShownLine { side: FindingEvidenceSide::New, path, line, text }),
            replaced: s.replaced + paired(s.pending, (path, line)),
            block_adds: true,
            new_line: following(s.new_line),
            ..s
        },
        _ => s,
    }
}

/// What has been read once a removed line is read too.
pub open spec fn removed_step(s: DiffState, text: Seq<char>) -> DiffState {
    match (s.old_path, s.old_line) {
        (Some(path), Some(line)) => DiffState {
            pending: (if s.block_adds {
                Seq::empty()
            } else {
                s.pending
            }).push((path, line)),
            block_adds: false,
            shown: s.shown.push(ShownLine { side: FindingEvidenceSide::Old, path, line, text }),
            old_line: following(s.old_line),
            ..s
        },
        _ => s,
    }
}

/// Nothing has been read.
pub open spec fn diff_start() -> DiffState {
    DiffState {
        old_path: None,
        new_path: None,
        old_line: None,
        new_line: None,
        pending: Seq::empty(),
        block_adds: false,
        shown: Seq::empty(),
        replaced: Seq::empty(),
    }
}

/// What has been read of a diff with these lines.
pub open spec fn diff_state(lines: Seq<Seq<char>>) -> DiffState
    decreases lines.len(),
{
    if lines.len() == 0 {
        diff_start()
    } else {
        diff_step(diff_state(lines.drop_last()), lines.last())
    }
}

/// The last line shown at a place of a side.
pub open spec fn shown_at(
    shown: Seq<ShownLine>,
    side: FindingEvidenceSide,
    path: Seq<char>,
    line: u32,
) -> Option<Seq<char>>
    decreases shown.len(),
{
    if shown.len() == 0 {
        None
    } else if shown.last().side == side && shown.last().path == path && shown.last().line == line {
        Some(shown.last().text)
    } else {
        shown_at(shown.drop_last(), side, path, line)
    }
}

/// A line that a diff shows on one side.
#[derive(Debug, PartialEq, Eq)]
pub struct DiffLine {
    pub side: FindingEvidenceSide,
    pub path: String,
    pub line: u32,
    pub text: String,
}

impl View for DiffLine {
    type V = ShownLine;

    open spec fn view(&self) -> ShownLine {
        ShownLine { side: self.side, path: self.path@, line: self.line, text: self.text@ }
    }
}

/// A removed line and a line that replaced it.
#[derive(Debug, PartialEq, Eq)]
pub struct ReplacedLine {
    pub old_path: String,
    pub old_line: u32,
    pub new_path: String,
    pub new_line: u32,
}

impl View for ReplacedLine {
    type V = (Place, Place);

    open spec fn view(&self) -> (Place, Place) {
        ((self.old_path@, self.old_line), (self.new_path@, self.new_line))
    }
}

/// The removed and added lines of a diff, and which lines replaced which.
#[derive(Debug, PartialEq, Eq)]
pub struct DiffEvidenceSet {
    pub lines: Vec<DiffLine>,
    pub replacement_lines: Vec<ReplacedLine>,
}

/// What the recorded lines say.
pub open spec fn shown_views(s: Seq<DiffLine>) -> Seq<ShownLine> {
    s.map_values(|l: DiffLine| l@)
}

/// What the recorded replacements say.
pub open spec fn replaced_views(s: Seq<ReplacedLine>) -> Seq<(Place, Place)> {
    s.map_values(|l: ReplacedLine| l@)
}

/// What a list of places says.
pub open spec fn place_views(s: Seq<(String, u32)>) -> Seq<Place> {
    s.map_values(|p: (String, u32)| (p.0@, p.1))
}

fn following_line(n: Option<u32>) -> (r: Option<u32>)
    ensures
        r == following(n),
{
    match n {
        Some(k) => if k < u32::MAX {
            Some(k + 1)
        } else {
            None
        },
        None => None,
    }
}

/// The evidence that a diff offers.
pub struct EvidenceSetView {
    pub shown: Seq<ShownLine>,
    pub replaced: Seq<(Place, Place)>,
}

impl View for DiffEvidenceSet {
    type V = EvidenceSetView;

    open spec fn view(&self) -> EvidenceSetView {
        EvidenceSetView {
            shown: shown_views(self.lines@),
            replaced: replaced_views(self.replacement_lines@),
        }
    }
}

/// A piece of evidence speaks of a line that the diff shows.
pub open spec fn shows(set: EvidenceSetView, e: EvidenceView) -> bool {
    shown_at(set.shown, e.side, e.path, e.line) is Some
}

/// A piece of the evidence names this added line, which the diff shows.
pub open spec fn names_added(
    set: EvidenceSetView,
    evidence: Seq<EvidenceView>,
    place: Place,
) -> bool {
    exists|k: int|
        0 <= k < evidence.len() && (#[trigger] evidence[k]).side == FindingEvidenceSide::New
            && evidence[k].path == place.0 && evidence[k].line == place.1 && shows(set, evidence[k])
}

/// Something replaced the removed line, and the evidence names all that did.
pub open spec fn replacement_checked(
    set: EvidenceSetView,
    removed: EvidenceView,
    evidence: Seq<EvidenceView>,
) -> bool {
    let at = (removed.path, removed.line);
    &&& removed.side == FindingEvidenceSide::Old
    &&& exists|k: int| 0 <= k < set.replaced.len() && (#[trigger] set.replaced[k]).0 == at
    &&& forall|k: int|
        0 <= k < set.replaced.len() && (#[trigger] set.replaced[k]).0 == at ==> names_added(
            set,
            evidence,
            set.replaced[k].1,
        )
}

fn rest_of_line(line: &str) -> (r: String)
    requires
        line@.len() > 0,
    ensures
        r@ == line@.skip(1),
{
    let v = chars_of(line);
    text_of(&v, 1, v.len())
}

impl DiffEvidenceSet {
    /// The evidence that a diff offers.
    pub fn from_unified_diff(diff: &str) -> (r: Self)
        ensures
            r@.shown == diff_state(lines_of(diff@)).shown,
            r@.replaced == diff_state(lines_of(diff@)).replaced,
    {
        let all = lines(diff);
        let mut shown: Vec<DiffLine> = Vec::new();
        let mut replaced: Vec<ReplacedLine> = Vec::new();
        let mut old_path: Option<String> = None;
        let mut new_path: Option<String> = None;
        let mut old_line: Option<u32> = None;
        let mut new_line: Option<u32> = None;
        let mut pending: Vec<(String, u32)> = Vec::new();
        let mut block_adds = false;
        let mut i: usize = 0;
        proof {
            assert(shown_views(shown@) =~= Seq::empty());
            assert(replaced_views(replaced@) =~= Seq::empty());
            assert(place_views(pending@) =~= Seq::empty());
            assert(views(all@).take(0) =~= Seq::empty());
        }
        while i < all.len()
            invariant
                i <= all@.len(),
                views(all@) == lines_of(diff@),
                ({
                    let s = diff_state(views(all@).take(i as int));
                    &&& s.old_path == opt_view(old_path)
                    &&& s.new_path == opt_view(new_path)
                    &&& s.old_line == old_line
                    &&& s.new_line == new_line
                    &&& s.pending == place_views(pending@)
                    &&& s.block_adds == block_adds
                    &&& s.shown == shown_views(shown@)
                    &&& s.replaced == replaced_views(replaced@)
                }),
            decreases all@.len() - i,
        {
            let ghost s = diff_state(views(all@).take(i as int));
            let ghost pending0 = pending@;
            let ghost shown0 = shown@;
            let ghost replaced0 = replaced@;
            proof {
                assert(views(all@).take(i + 1).drop_last() =~= views(all@).take(i as int));
                assert(views(all@).take(i + 1).last() == all@[i as int]@);
            }
            let line = all[i].as_str();
            let first = first_char(line);
            if let Some(path) = strip_prefix(line, "--- ") {
                pending = Vec::new();
                block_adds = false;
                old_path = parse_diff_path(path.as_str());
            } else if let Some(path) = strip_prefix(line, "+++ ") {
                pending = Vec::new();
                block_adds = false;
                new_path = parse_diff_path(path.as_str());
            } else if starts_with(line, "@@") {
                pending = Vec::new();
                block_adds = false;
                let starts = parse_diff_hunk_starts(line);
                old_line = starts.0;
                new_line = starts.1;
            } else if first == Some('+') {
                if let (Some(path), Some(number)) = (&new_path, new_line) {
                    let text = rest_of_line(line);
                    shown.push(
                        DiffLine {
                            side: FindingEvidenceSide::New,
                            path: path.clone(),
                            line: number,
                            text,
                        },
                    );
                    proof {
                        assert(shown_views(shown@) =~= shown_views(shown0).push(
                            ShownLine {
                                side: FindingEvidenceSide::New,
                                path: path@,
                                line: number,
                                text: line@.skip(1),
                            },
                        ));
                    }
                    let mut k: usize = 0;
                    while k < pending.len()
                        invariant
                            k <= pending@.len(),
                            replaced_views(replaced@) == replaced_views(replaced0) + paired(
                                place_views(pending@).take(k as int),
                                (path@, number),
                            ),
                        decreases pending@.len() - k,
                    {
                        let ghost before = replaced@;
                        replaced.push(
                            ReplacedLine {
                                old_path: pending[k].0.clone(),
                                old_line: pending[k].1,
                                new_path: path.clone(),
                                new_line: number,
                            },
                        );
                        proof {
                            let to = (path@, number);
                            assert(place_views(pending@).take(k + 1) =~= place_views(
                                pending@,
                            ).take(k as int).push(place_views(pending@)[k as int]));
                            assert(replaced_views(replaced@) =~= replaced_views(before).push(
                                (place_views(pending@)[k as int], to),
                            ));
                            assert(paired(place_views(pending@).take(k + 1), to) =~= paired(
                                place_views(pending@).take(k as int),
                                to,
                            ).push((place_views(pending@)[k as int], to)));
                        }
                        k += 1;
                    }
                    proof {
                        assert(place_views(pending@).take(pending@.len() as int) =~= place_views(
                            pending@,
                        ));
                    }
                    block_adds = true;
                    new_line = following_line(new_line);
                }
            } else if first == Some('-') {
                if let (Some(path), Some(number)) = (&old_path, old_line) {
                    if block_adds {
                        pending = Vec::new();
                        block_adds = false;
                    }
                    let ghost kept = place_views(pending@);
                    let text = rest_of_line(line);
                    shown.push(
                        DiffLine {
                            side: FindingEvidenceSide::Old,
                            path: path.clone(),
                            line: number,
                            text,
                        },
                    );
                    pending.push((path.clone(), number));
                    proof {
                        assert(shown_views(shown@) =~= shown_views(shown0).push(
                            ShownLine {
                                side: FindingEvidenceSide::Old,
                                path: path@,
                                line: number,
                                text: line@.skip(1),
                            },
                        ));
                        assert(place_views(pending@) =~= kept.push((path@, number)));
                        assert(s.block_adds ==> kept =~= Seq::empty());
                    }
                    old_line = following_line(old_line);
                }
            } else if first == Some(' ') {
                pending = Vec::new();
                block_adds = false;
                old_line = following_line(old_line);
                new_line = following_line(new_line);
            } else {
                pending = Vec::new();
                block_adds = false;
            }
            proof {
                if pending@.len() == 0 {
                    assert(place_views(pending@) =~= Seq::empty());
                }
            }
            i += 1;
        }
        proof {
            assert(views(all@).take(all@.len() as int) =~= views(all@));
        }
        DiffEvidenceSet { lines: shown, replacement_lines: replaced }
    }

    /// The line that the diff shows at the place that the evidence names.
    pub fn line(&self, evidence: &FindingEvidence) -> (r: Option<&str>)
        ensures
            match r {
                Some(t) => shown_at(self@.shown, evidence.side, evidence.path@, evidence.line)
                    == Some(t@),
                None => shown_at(self@.shown, evidence.side, evidence.path@, evidence.line)
                    is None,
            },
    {
        let ghost all = shown_views(self.lines@);
        let mut i: usize = self.lines.len();
        proof {
            assert(all.take(i as int) =~= all);
        }
        while i > 0
            invariant
                i <= self.lines@.len(),
                all == shown_views(self.lines@),
                shown_at(all, evidence.side, evidence.path@, evidence.line) == shown_at(
                    all.take(i as int),
                    evidence.side,
                    evidence.path@,
                    evidence.line,
                ),
            decreases i,
        {
            proof {
                assert(all.take(i as int).drop_last() =~= all.take(i - 1));
                assert(all.take(i as int).last() == self.lines@[i - 1]@);
            }
            let entry = &self.lines[i - 1];
            if entry.side == evidence.side && entry.line == evidence.line && same_text(
                entry.path.as_str(),
                evidence.path.as_str(),
            ) {
                return Some(entry.text.as_str());
            }
            i -= 1;
        }
        None
    }

    /// Whether the diff shows the line that the evidence names.
    pub fn contains(&self, evidence: &FindingEvidence) -> (r: bool)
        ensures
            r == shows(self@, evidence@),
    {
        self.line(evidence).is_some()
    }

    fn names_added_line(
        &self,
        evidence: &Vec<FindingEvidence>,
        path: &String,
        line: u32,
    ) -> (r: bool)
        ensures
            r == names_added(self@, evidence_views(evidence@), (path@, line)),
    {
        let ghost seen = evidence_views(evidence@);
        let mut i: usize = 0;
        while i < evidence.len()
            invariant
                i <= evidence@.len(),
                seen == evidence_views(evidence@),
                forall|k: int|
                    0 <= k < i ==> !((#[trigger] seen[k]).side == FindingEvidenceSide::New
                        && seen[k].path == path@ && seen[k].line == line && shows(self@, seen[k])),
            decreases evidence@.len() - i,
        {
            let e = &evidence[i];
            proof {
                assert(seen[i as int] == e@);
            }
            if e.side == FindingEvidenceSide::New && e.line == line && same_text(
                e.path.as_str(),
                path.as_str(),
            ) && self.contains(e) {
                return true;
            }
            i += 1;
        }
        false
    }

    /// Whether something replaced the removed line, and the evidence names all that did.
    pub fn replacement_block_is_fully_checked(
        &self,
        old_evidence: &FindingEvidence,
        resolution_evidence: &Vec<FindingEvidence>,
    ) -> (r: bool)
        ensures
            r == replacement_checked(
                self@,
                old_evidence@,
                evidence_views(resolution_evidence@),
            ),
    {
        if old_evidence.side != FindingEvidenceSide::Old {
            return false;
        }
        let ghost at = (old_evidence.path@, old_evidence.line);
        let ghost pairs = self@.replaced;
        let mut found = false;
        let mut i: usize = 0;
        while i < self.replacement_lines.len()
            invariant
                i <= self.replacement_lines@.len(),
                at == (old_evidence.path@, old_evidence.line),
                pairs == self@.replaced,
                old_evidence.side == FindingEvidenceSide::Old,
                found == exists|k: int| 0 <= k < i && (#[trigger] pairs[k]).0 == at,
                forall|k: int|
                    0 <= k < i && (#[trigger] pairs[k]).0 == at ==> names_added(
                        self@,
                        evidence_views(resolution_evidence@),
                        pairs[k].1,
                    ),
            decreases self.replacement_lines@.len() - i,
        {
            let entry = &self.replacement_lines[i];
            proof {
                assert(pairs[i as int] == entry@);
            }
            if entry.old_line == old_evidence.line && same_text(
                entry.old_path.as_str(),
                old_evidence.path.as_str(),
            ) {
                found = true;
                if !self.names_added_line(resolution_evidence, &entry.new_path, entry.new_line) {
                    return false;
                }
            }
            i += 1;
        }
        found
    }
}

/// The first character.
pub fn first_char(s: &str) -> (r: Option<char>)
    ensures
        r == if s@.len() > 0 {
            Some(s@[0])
        } else {
            None
        },
{
    let v = chars_of(s);
    if v.len() > 0 {
        Some(v[0])
    } else {
        None
    }
}

// ---------------------------------------------------------------------------
// What holds of it
// ---------------------------------------------------------------------------

proof fn lemma_trimmed_is_same(s: Seq<char>)
    requires
        s.len() > 0,
        !crate::text::whitespace(s[0]),
        !crate::text::whitespace(s.last()),
    ensures
        trimmed(s) == s,
{
    assert(crate::split::trim_start_of(s) =~= s);
    assert(crate::split::trim_end_of(s) =~= s);
}

/// The path in the header of a file is what stands before the first tab, without the mark
/// of its side; the null device is no path.
pub proof fn law_diff_paths(path: Seq<char>, time: Seq<char>)
    requires
        path.len() > 0,
        !path.contains('\t'),
        !crate::text::whitespace(path.last()),
    ensures
        diff_path("a/"@ + path) == Some(path),
        diff_path("b/"@ + path) == Some(path),
        diff_path("a/"@ + path + seq!['\t'] + time) == Some(path),
        diff_path("b/"@ + path + seq!['\t'] + time) == Some(path),
        diff_path("/dev/null"@) is None,
{
    reveal_strlit("a/");
    reveal_strlit("b/");
    reveal_strlit("/dev/null");
    let a = "a/"@ + path;
    let b = "b/"@ + path;
    assert forall|c: char| c == '\t' implies !a.contains(c) && !b.contains(c) by {
        if a.contains(c) {
            let j = choose|j: int| 0 <= j < a.len() && a[j] == c;
            assert(path[j - 2] == c);
            assert(path.contains(c));
        }
        if b.contains(c) {
            let j = choose|j: int| 0 <= j < b.len() && b[j] == c;
            assert(path[j - 2] == c);
            assert(path.contains(c));
        }
    }
    crate::split::law_fields(a, time, '\t');
    crate::split::law_fields(b, time, '\t');
    lemma_trimmed_is_same(a);
    lemma_trimmed_is_same(b);
    assert(a != "/dev/null"@) by {
        assert(a[0] == 'a');
    }
    assert(b != "/dev/null"@) by {
        assert(b[0] == 'b');
    }
    assert("a/"@.is_prefix_of(a)) by {
        assert(a.take(2) =~= "a/"@);
    }
    assert("b/"@.is_prefix_of(b)) by {
        assert(b.take(2) =~= "b/"@);
    }
    assert(!"a/"@.is_prefix_of(b)) by {
        assert(b[0] == 'b');
        if "a/"@.is_prefix_of(b) {
            assert(b.take(2)[0] == 'a');
        }
    }
    assert(a.skip(2) =~= path);
    assert(b.skip(2) =~= path);
    let n = "/dev/null"@;
    crate::split::law_fields(n, time, '\t');
    lemma_trimmed_is_same(n);
}

/// The header of a hunk tells where it starts: the number behind the minus is the first
/// line before the change, the one behind the plus the first line after it, whatever
/// follows a comma.
pub proof fn law_hunk_headers(words: Seq<Seq<char>>, n: u32, count: Seq<char>)
    ensures
        hunk_starts(Seq::empty()) == (None::<u32>, None::<u32>),
        hunk_starts(words.push(seq!['-'] + decimal_of(n as nat))) == (
            Some(n),
            hunk_starts(words).1,
        ),
        hunk_starts(words.push(seq!['-'] + decimal_of(n as nat) + seq![','] + count)) == (
            Some(n),
            hunk_starts(words).1,
        ),
        hunk_starts(words.push(seq!['+'] + decimal_of(n as nat))) == (
            hunk_starts(words).0,
            Some(n),
        ),
        hunk_starts(words.push(seq!['+'] + decimal_of(n as nat) + seq![','] + count)) == (
            hunk_starts(words).0,
            Some(n),
        ),
        count.len() > 0 && count[0] != '-' && count[0] != '+' ==> hunk_starts(words.push(count))
            == hunk_starts(words),
{
    let d = decimal_of(n as nat);
    crate::number::law_decimal_is_read_back(n as nat, u32::MAX as nat);
    crate::number::law_decimal_digits(n as nat);
    assert(!d.contains(',')) by {
        if d.contains(',') {
            let j = choose|j: int| 0 <= j < d.len() && d[j] == ',';
            assert(crate::text::digit(d[j]));
        }
    }
    crate::split::law_fields(d, count, ',');
    lemma_signed_start(words, '-', d, n);
    lemma_signed_start(words, '-', d + seq![','] + count, n);
    lemma_signed_start(words, '+', d, n);
    lemma_signed_start(words, '+', d + seq![','] + count, n);
    assert(seq!['-'] + d + seq![','] + count =~= seq!['-'] + (d + seq![','] + count));
    assert(seq!['+'] + d + seq![','] + count =~= seq!['+'] + (d + seq![','] + count));
    assert(words.push(count).drop_last() =~= words);
    if count.len() > 0 && count[0] != '-' && count[0] != '+' {
        if seq!['-'].is_prefix_of(count) {
            assert(count.take(1)[0] == '-');
        }
        if seq!['+'].is_prefix_of(count) {
            assert(count.take(1)[0] == '+');
        }
    }
}

proof fn lemma_signed_start(words: Seq<Seq<char>>, sign: char, range: Seq<char>, n: u32)
    requires
        sign == '-' || sign == '+',
        line_number(split_at_char(range, ',')[0]) == Some(n),
    ensures
        sign == '-' ==> hunk_starts(words.push(seq![sign] + range)) == (
            Some(n),
            hunk_starts(words).1,
        ),
        sign == '+' ==> hunk_starts(words.push(seq![sign] + range)) == (
            hunk_starts(words).0,
            Some(n),
        ),
{
    let word = seq![sign] + range;
    assert(words.push(word).drop_last() =~= words);
    assert(words.push(word).last() == word);
    crate::text::law_beginnings_and_ends_are_taken_off(range, seq![sign]);
    if sign == '+' {
        if seq!['-'].is_prefix_of(word) {
            assert(word.take(1)[0] == '-');
        }
    }
}

/// However the words of a line are spaced, it is normalized to the words with one space
/// between any two.
pub proof fn law_spacing_is_normalized(word: Seq<char>, space: char, rest: Seq<char>)
    requires
        word.len() > 0,
        forall|j: int| 0 <= j < word.len() ==> !crate::text::whitespace(#[trigger] word[j]),
        crate::text::whitespace(space),
    ensures
        normalized(Seq::empty()) == Seq::<char>::empty(),
        normalized(word) == word,
        normalized(seq![space] + rest) == normalized(rest),
        words_of(rest).len() > 0 ==> normalized(word + seq![space] + rest) == word + " "@
            + normalized(rest),
        words_of(rest).len() == 0 ==> normalized(word + seq![space] + rest) == word,
{
    crate::split::law_words(word, space, rest);
    if words_of(rest).len() > 0 {
        lemma_joined_in_front(word, words_of(rest), " "@);
    } else {
        assert(seq![word] + words_of(rest) =~= seq![word]);
    }
}

proof fn lemma_joined_in_front(first: Seq<char>, rest: Seq<Seq<char>>, separator: Seq<char>)
    requires
        rest.len() > 0,
    ensures
        joined(seq![first] + rest, separator) == first + separator + joined(rest, separator),
    decreases rest.len(),
{
    let all = seq![first] + rest;
    assert(all.drop_last() =~= seq![first] + rest.drop_last());
    assert(all.last() == rest.last());
    if rest.len() == 1 {
        assert(rest.drop_last() =~= Seq::empty());
        assert(all.drop_last() =~= seq![first]);
        assert(rest[0] == rest.last());
        assert(joined(seq![first], separator) == first);
        assert(joined(all, separator) =~= first + separator + rest[0]);
    } else {
        lemma_joined_in_front(first, rest.drop_last(), separator);
        assert(first + separator + joined(rest, separator) =~= first + separator + joined(
            rest.drop_last(),
            separator,
        ) + separator + rest.last());
    }
}

/// A diff has as many changed lines as lines that start with a plus or a minus, but for
/// the headers of files.
pub proof fn law_changed_lines_are_counted(a: Seq<Seq<char>>, b: Seq<Seq<char>>, line: Seq<char>)
    ensures
        changed_lines(a + b) == changed_lines(a) + changed_lines(b),
        changed_lines(seq![line]) == 1 <==> ("+"@.is_prefix_of(line) && !"+++"@.is_prefix_of(line))
            || ("-"@.is_prefix_of(line) && !"---"@.is_prefix_of(line)),
        changed_lines(seq![line]) <= 1,
    decreases b.len(),
{
    assert(seq![line].drop_last() =~= Seq::empty());
    reveal_with_fuel(changed_lines, 2);
    if b.len() == 0 {
        assert(a + b =~= a);
    } else {
        assert((a + b).drop_last() =~= a + b.drop_last());
        law_changed_lines_are_counted(a, b.drop_last(), line);
    }
}

/// The text of a line of the diff is the one that was shown last for it; a line that was
/// not shown has none.
pub proof fn law_the_last_line_shown_stands(
    shown: Seq<ShownLine>,
    side: FindingEvidenceSide,
    path: Seq<char>,
    line: u32,
)
    ensures
        shown_at(shown, side, path, line) matches Some(text) ==> exists|i: int|
            0 <= i < shown.len() && #[trigger] shown[i] == (ShownLine { side, path, line, text })
                && forall|j: int|
                i < j < shown.len() ==> !((#[trigger] shown[j]).side == side && shown[j].path
                    == path && shown[j].line == line),
        shown_at(shown, side, path, line) is None ==> forall|j: int|
            0 <= j < shown.len() ==> !((#[trigger] shown[j]).side == side && shown[j].path == path
                && shown[j].line == line),
    decreases shown.len(),
{
    if shown.len() > 0 {
        let last = shown.last();
        let rest = shown.drop_last();
        if last.side == side && last.path == path && last.line == line {
            assert(shown[shown.len() - 1] == (ShownLine { side, path, line, text: last.text }));
        } else {
            law_the_last_line_shown_stands(rest, side, path, line);
            if let Some(text) = shown_at(rest, side, path, line) {
                let i = choose|i: int|
                    0 <= i < rest.len() && #[trigger] rest[i] == (ShownLine {
                        side,
                        path,
                        line,
                        text,
                    }) && forall|j: int|
                        i < j < rest.len() ==> !((#[trigger] rest[j]).side == side && rest[j].path
                            == path && rest[j].line == line);
                assert(shown[i] == rest[i]);
                assert forall|j: int| i < j < shown.len() implies !((
                #[trigger] shown[j]).side == side && shown[j].path == path && shown[j].line
                    == line) by {
                    if j < rest.len() {
                        assert(rest[j] == shown[j]);
                    }
                }
            } else {
                assert forall|j: int| 0 <= j < shown.len() implies !((
                #[trigger] shown[j]).side == side && shown[j].path == path && shown[j].line
                    == line) by {
                    if j < rest.len() {
                        assert(rest[j] == shown[j]);
                    }
                }
            }
        }
    }
}

/// An added line of a hunk is shown under its number after the change, replaces every line
/// that was removed before it in its block, and counts one line on that side alone.
pub proof fn law_added_lines_are_shown(lines: Seq<Seq<char>>, text: Seq<char>)
    requires
        diff_state(lines).new_path is Some,
        diff_state(lines).new_line is Some,
        !"++ "@.is_prefix_of(text),
    ensures
        ({
            let before = diff_state(lines);
            let after = diff_state(lines.push(seq!['+'] + text));
            let path = before.new_path->0;
            let line = before.new_line->0;
            &&& after.shown == before.shown.push(
                ShownLine { side: FindingEvidenceSide::New, path, line, text },
            )
            &&& line < u32::MAX ==> after.new_line == Some((line + 1) as u32)
            &&& after.old_line == before.old_line
            &&& after.old_path == before.old_path && after.new_path == before.new_path
            &&& after.pending == before.pending
            &&& after.replaced.len() == before.replaced.len() + before.pending.len()
            &&& forall|k: int|
                0 <= k < before.replaced.len() ==> #[trigger] after.replaced[k]
                    == before.replaced[k]
            &&& forall|k: int|
                0 <= k < before.pending.len() ==> #[trigger] after.replaced[before.replaced.len()
                    + k] == (before.pending[k], (path, line))
        }),
{
    let line = seq!['+'] + text;
    lemma_line_kind(lines, line);
    assert(line.skip(1) =~= text);
    if "+++ "@.is_prefix_of(line) {
        reveal_strlit("+++ ");
        reveal_strlit("++ ");
        assert(text.take(3) =~= "++ "@) by {
            assert(line.take(4) =~= "+++ "@);
            assert forall|j: int| 0 <= j < 3 implies #[trigger] text.take(3)[j] == "++ "@[j] by {
                assert(line.take(4)[j + 1] == "+++ "@[j + 1]);
            }
        }
    }
}

proof fn lemma_line_kind(lines: Seq<Seq<char>>, line: Seq<char>)
    requires
        line.len() > 0,
    ensures
        lines.push(line).drop_last() == lines,
        lines.push(line).last() == line,
        line[0] != '-' ==> !"--- "@.is_prefix_of(line),
        line[0] != '+' ==> !"+++ "@.is_prefix_of(line),
        line[0] != '@' ==> !"@@"@.is_prefix_of(line),
{
    assert(lines.push(line).drop_last() =~= lines);
    reveal_strlit("--- ");
    reveal_strlit("+++ ");
    reveal_strlit("@@");
    if "--- "@.is_prefix_of(line) {
        assert(line.take(4)[0] == '-');
    }
    if "+++ "@.is_prefix_of(line) {
        assert(line.take(4)[0] == '+');
    }
    if "@@"@.is_prefix_of(line) {
        assert(line.take(2)[0] == '@');
    }
}

/// A removed line of a hunk is shown under its number before the change, waits for what
/// replaces it, and counts one line on that side alone. A removed line behind an added one
/// starts a block.
pub proof fn law_removed_lines_are_shown(lines: Seq<Seq<char>>, text: Seq<char>)
    requires
        diff_state(lines).old_path is Some,
        diff_state(lines).old_line is Some,
        !"-- "@.is_prefix_of(text),
    ensures
        ({
            let before = diff_state(lines);
            let after = diff_state(lines.push(seq!['-'] + text));
            let path = before.old_path->0;
            let line = before.old_line->0;
            &&& after.shown == before.shown.push(
                ShownLine { side: FindingEvidenceSide::Old, path, line, text },
            )
            &&& line < u32::MAX ==> after.old_line == Some((line + 1) as u32)
            &&& after.new_line == before.new_line
            &&& after.old_path == before.old_path && after.new_path == before.new_path
            &&& after.pending.len() > 0 && after.pending.last() == (path, line)
            &&& !before.block_adds ==> after.pending == before.pending.push((path, line))
            &&& before.block_adds ==> after.pending == seq![(path, line)]
            &&& after.replaced == before.replaced
            &&& !after.block_adds
        }),
{
    let line = seq!['-'] + text;
    lemma_line_kind(lines, line);
    assert(line.skip(1) =~= text);
    if "--- "@.is_prefix_of(line) {
        reveal_strlit("--- ");
        reveal_strlit("-- ");
        assert(text.take(3) =~= "-- "@) by {
            assert(line.take(4) =~= "--- "@);
            assert forall|j: int| 0 <= j < 3 implies #[trigger] text.take(3)[j] == "-- "@[j] by {
                assert(line.take(4)[j + 1] == "--- "@[j + 1]);
            }
        }
    }
    assert(Seq::<Place>::empty().push((diff_state(lines).old_path->0, diff_state(lines).old_line->0))
        =~= seq![(diff_state(lines).old_path->0, diff_state(lines).old_line->0)]);
}

/// A line that is the same on both sides is not shown, counts one line on each, and ends a
/// block.
pub proof fn law_unchanged_lines_are_counted_on_both_sides(
    lines: Seq<Seq<char>>,
    text: Seq<char>,
)
    ensures
        ({
            let before = diff_state(lines);
            let after = diff_state(lines.push(seq![' '] + text));
            &&& after.shown == before.shown && after.replaced == before.replaced
            &&& after.pending.len() == 0 && !after.block_adds
            &&& before.old_line matches Some(n) ==> n < u32::MAX ==> after.old_line == Some(
                (n + 1) as u32,
            )
            &&& before.new_line matches Some(n) ==> n < u32::MAX ==> after.new_line == Some(
                (n + 1) as u32,
            )
            &&& after.old_path == before.old_path && after.new_path == before.new_path
        }),
{
    lemma_line_kind(lines, seq![' '] + text);
}

/// Nothing of a diff that shows no file is shown.
pub proof fn law_an_empty_diff_shows_nothing()
    ensures
        diff_state(Seq::empty()).shown.len() == 0,
        diff_state(Seq::empty()).replaced.len() == 0,
        diff_state(Seq::empty()).old_path is None && diff_state(Seq::empty()).new_path is None,
        diff_state(Seq::empty()).old_line is None && diff_state(Seq::empty()).new_line is None,
{
}

/// The headers of a file name it on either side, and end a block.
pub proof fn law_headers_name_the_file(lines: Seq<Seq<char>>, name: Seq<char>)
    ensures
        ({
            let before = diff_state(lines);
            let old = diff_state(lines.push("--- "@ + name));
            let new = diff_state(lines.push("+++ "@ + name));
            &&& old.old_path == diff_path(name) && old.new_path == before.new_path
            &&& new.new_path == diff_path(name) && new.old_path == before.old_path
            &&& old.shown == before.shown && new.shown == before.shown
            &&& old.pending.len() == 0 && new.pending.len() == 0
            &&& old.replaced == before.replaced && new.replaced == before.replaced
        }),
{
    reveal_strlit("--- ");
    reveal_strlit("+++ ");
    crate::text::law_beginnings_and_ends_are_taken_off(name, "--- "@);
    crate::text::law_beginnings_and_ends_are_taken_off(name, "+++ "@);
    lemma_line_kind(lines, "--- "@ + name);
    lemma_line_kind(lines, "+++ "@ + name);
    assert(("+++ "@ + name)[0] == '+');
}

/// What replaced a removed line is checked exactly if something did, and evidence of the
/// new side names each line that did and that the diff shows.
pub proof fn law_replacements_are_checked_whole(
    set: EvidenceSetView,
    removed: EvidenceView,
    evidence: Seq<EvidenceView>,
)
    requires
        removed.side == FindingEvidenceSide::Old,
    ensures
        replacement_checked(set, removed, evidence) ==> exists|k: int|
            0 <= k < set.replaced.len() && (#[trigger] set.replaced[k]).0 == (
                removed.path,
                removed.line,
            ),
        forall|k: int|
            #![trigger set.replaced[k]]
            replacement_checked(set, removed, evidence) && 0 <= k < set.replaced.len()
                && set.replaced[k].0 == (removed.path, removed.line) ==> exists|j: int|
                0 <= j < evidence.len() && (#[trigger] evidence[j]).side
                    == FindingEvidenceSide::New && evidence[j].path == set.replaced[k].1.0
                    && evidence[j].line == set.replaced[k].1.1,
        (exists|k: int|
            0 <= k < set.replaced.len() && (#[trigger] set.replaced[k]).0 == (
                removed.path,
                removed.line,
            )) && (forall|k: int|
            0 <= k < set.replaced.len() && (#[trigger] set.replaced[k]).0 == (
                removed.path,
                removed.line,
            ) ==> exists|j: int|
                0 <= j < evidence.len() && (#[trigger] evidence[j]).side
                    == FindingEvidenceSide::New && evidence[j].path == set.replaced[k].1.0
                    && evidence[j].line == set.replaced[k].1.1 && shown_at(
                    set.shown,
                    FindingEvidenceSide::New,
                    evidence[j].path,
                    evidence[j].line,
                ) is Some) ==> replacement_checked(set, removed, evidence),
{
    if replacement_checked(set, removed, evidence) {
        assert forall|k: int|
            #![trigger set.replaced[k]]
            0 <= k < set.replaced.len() && set.replaced[k].0 == (
                removed.path,
                removed.line,
            ) implies exists|j: int|
            0 <= j < evidence.len() && (#[trigger] evidence[j]).side == FindingEvidenceSide::New
                && evidence[j].path == set.replaced[k].1.0 && evidence[j].line
                == set.replaced[k].1.1 by {
            assert(names_added(set, evidence, set.replaced[k].1));
        }
    }
    if (exists|k: int|
        0 <= k < set.replaced.len() && (#[trigger] set.replaced[k]).0 == (
            removed.path,
            removed.line,
        )) && (forall|k: int|
        0 <= k < set.replaced.len() && (#[trigger] set.replaced[k]).0 == (
            removed.path,
            removed.line,
        ) ==> exists|j: int|
            0 <= j < evidence.len() && (#[trigger] evidence[j]).side == FindingEvidenceSide::New
                && evidence[j].path == set.replaced[k].1.0 && evidence[j].line
                == set.replaced[k].1.1 && shown_at(
                set.shown,
                FindingEvidenceSide::New,
                evidence[j].path,
                evidence[j].line,
            ) is Some) {
        assert forall|k: int|
            0 <= k < set.replaced.len() && (#[trigger] set.replaced[k]).0 == (
                removed.path,
                removed.line,
            ) implies names_added(set, evidence, set.replaced[k].1) by {
            let j = choose|j: int|
                0 <= j < evidence.len() && (#[trigger] evidence[j]).side
                    == FindingEvidenceSide::New && evidence[j].path == set.replaced[k].1.0
                    && evidence[j].line == set.replaced[k].1.1 && shown_at(
                    set.shown,
                    FindingEvidenceSide::New,
                    evidence[j].path,
                    evidence[j].line,
                ) is Some;
            assert(shows(set, evidence[j]));
        }
    }
}

} // verus!
