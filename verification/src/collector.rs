//! The collection of semantic context: the searches that are made one after the other,
//! the search through tracked files that stands in for them, and the report.
use vstd::prelude::*;

use crate::bytes::{byte_len, counted_bytes};
use crate::excerpts::{
    excerpt_views, excerpts_of, law_selection, loaded_views, rank_candidates, select_excerpts,
    selection, ExcerptView, MAX_SEMANTIC_CONTEXT_BYTES, MAX_SEMANTIC_EXCERPTS,
};
use crate::list::copy_texts;
use crate::order::sorted;
use crate::search::{
    bound_source_candidates, bounded, candidates_of, match_views, select_candidates, MatchView,
    SearchMatch,
};
use crate::semantic::{
    find_origin, origin_of, origin_views, ChangedSymbols, Origin, MAX_SEMANTIC_FILE_BYTES,
};
use crate::split::{lines, lines_of};
use crate::text::{concat3, contains, has_text, opt_view, views};

verus! {

/// How many searches are made at most.
pub const MAX_RG_CALLS: usize = 16;

/// How many bytes one search may report.
pub const MAX_RG_OUTPUT_BYTES_PER_CALL: usize = 32768;

/// How many bytes all searches may report.
pub const MAX_RG_OUTPUT_BYTES: usize = 262144;

/// How long all searches may take, in nanoseconds.
pub const MAX_SEARCH_TIME: u64 = 3_000_000_000;

/// How long one search may take, in nanoseconds.
pub const MAX_RG_CALL_TIME: u64 = 800_000_000;

/// How many bytes of the list of tracked files are read.
pub const MAX_TRACKED_PATH_BYTES: usize = 524288;

/// What a match of the search through tracked files counts for at least.
pub const BUILTIN_MATCH_ALLOCATION_BYTES: usize = 256;

/// What did a search.
#[derive(Debug, Clone, Copy, PartialEq, Eq, Structural)]
pub enum SearchBackend {
    Ripgrep,
    Builtin,
}

/// What a search found.
#[derive(Debug, PartialEq, Eq)]
pub struct SearchOutput {
    pub matches: Vec<SearchMatch>,
    pub output_bytes: usize,
    pub truncated: bool,
    pub backend: SearchBackend,
}

/// Why a search found nothing.
#[derive(Debug, PartialEq, Eq)]
pub enum SearchError {
    RipgrepNotFound,
    Failed(String),
}

// ---------------------------------------------------------------------------
// One search after the other
// ---------------------------------------------------------------------------

/// Where the searches stand.
#[derive(Debug, Clone, Copy, PartialEq, Eq, Structural)]
pub enum SearchPhase {
    /// The next identifier is searched for.
    Searching,
    /// The tracked files are searched, since ripgrep is missing.
    TrackedFiles,
    /// There is nothing more to search.
    Finished,
}

/// What the searches have brought so far.
#[derive(Debug, PartialEq, Eq)]
pub struct SearchProgress {
    pub symbols: Vec<String>,
    pub phase: SearchPhase,
    pub rg_calls: usize,
    pub rg_output_bytes: usize,
    pub truncated: bool,
    pub unavailable: bool,
    pub used_builtin_search: bool,
    pub matches: Vec<SearchMatch>,
}

/// What the searches have brought so far.
pub struct ProgressView {
    pub symbols: Seq<Seq<char>>,
    pub phase: SearchPhase,
    pub calls: nat,
    pub bytes: nat,
    pub truncated: bool,
    pub unavailable: bool,
    pub builtin: bool,
    pub matches: Seq<MatchView>,
}

impl View for SearchProgress {
    type V = ProgressView;

    open spec fn view(&self) -> ProgressView {
        ProgressView {
            symbols: views(self.symbols@),
            phase: self.phase,
            calls: self.rg_calls as nat,
            bytes: self.rg_output_bytes as nat,
            truncated: self.truncated,
            unavailable: self.unavailable,
            builtin: self.used_builtin_search,
            matches: match_views(self.matches@),
        }
    }
}

/// What is to be done next.
#[derive(Debug, PartialEq, Eq)]
pub enum SearchStep {
    /// Search for the identifier, within these bounds.
    Search { symbol: String, origin: String, max_output_bytes: usize, timeout_nanos: u64 },
    /// Search the tracked files for all identifiers, within these bounds.
    SearchTrackedFiles { max_output_bytes: usize, timeout_nanos: u64 },
    /// Nothing.
    Finish,
}

/// What is to be done next.
pub enum StepView {
    Search { symbol: Seq<char>, origin: Seq<char>, max_output_bytes: nat, timeout_nanos: nat },
    SearchTrackedFiles { max_output_bytes: nat, timeout_nanos: nat },
    Finish,
}

impl View for SearchStep {
    type V = StepView;

    open spec fn view(&self) -> StepView {
        match self {
            SearchStep::Search { symbol, origin, max_output_bytes, timeout_nanos } =>
                StepView::Search {
                symbol: symbol@,
                origin: origin@,
                max_output_bytes: *max_output_bytes as nat,
                timeout_nanos: *timeout_nanos as nat,
            },
            SearchStep::SearchTrackedFiles { max_output_bytes, timeout_nanos } =>
                StepView::SearchTrackedFiles {
                max_output_bytes: *max_output_bytes as nat,
                timeout_nanos: *timeout_nanos as nat,
            },
            SearchStep::Finish => StepView::Finish,
        }
    }
}

/// The smaller number.
pub open spec fn smaller(a: int, b: int) -> nat {
    (if a <= b {
        a
    } else {
        b
    }) as nat
}

/// What is left of a budget.
pub open spec fn left_of(budget: nat, used: nat) -> nat {
    if used >= budget {
        0
    } else {
        (budget - used) as nat
    }
}

/// What the searches start with.
pub open spec fn progress_start(symbols: Seq<Seq<char>>) -> ProgressView {
    ProgressView {
        symbols: if symbols.len() > MAX_RG_CALLS {
            symbols.take(MAX_RG_CALLS as int)
        } else {
            symbols
        },
        phase: SearchPhase::Searching,
        calls: 0,
        bytes: 0,
        truncated: symbols.len() > MAX_RG_CALLS,
        unavailable: false,
        builtin: false,
        matches: Seq::empty(),
    }
}

/// The search state is one that the searches reach.
pub open spec fn progress_valid(p: ProgressView) -> bool {
    &&& p.symbols.len() <= MAX_RG_CALLS
    &&& p.calls <= p.symbols.len()
}

/// What is to be done next, once `elapsed` nanoseconds have passed, and the state then.
pub open spec fn next_view(
    p: ProgressView,
    origins: Seq<Origin>,
    elapsed: nat,
) -> (ProgressView, StepView) {
    match p.phase {
        SearchPhase::Finished => (p, StepView::Finish),
        SearchPhase::TrackedFiles => (
            p,
            StepView::SearchTrackedFiles {
                max_output_bytes: left_of(MAX_RG_OUTPUT_BYTES as nat, p.bytes),
                timeout_nanos: left_of(MAX_SEARCH_TIME as nat, elapsed),
            },
        ),
        SearchPhase::Searching => if p.calls >= p.symbols.len() {
            (ProgressView { phase: SearchPhase::Finished, ..p }, StepView::Finish)
        } else if elapsed >= MAX_SEARCH_TIME || p.bytes >= MAX_RG_OUTPUT_BYTES {
            (
                ProgressView { phase: SearchPhase::Finished, truncated: true, ..p },
                StepView::Finish,
            )
        } else {
            let symbol = p.symbols[p.calls as int];
            (
                ProgressView { calls: p.calls + 1, ..p },
                StepView::Search {
                    symbol,
                    origin: match origin_of(origins, symbol) {
                        Some(path) => path,
                        None => "[unknown]"@,
                    },
                    max_output_bytes: smaller(
                        MAX_RG_OUTPUT_BYTES - p.bytes,
                        MAX_RG_OUTPUT_BYTES_PER_CALL as int,
                    ),
                    timeout_nanos: smaller(MAX_SEARCH_TIME - elapsed, MAX_RG_CALL_TIME as int),
                },
            )
        },
    }
}

/// A sum, as far as `usize` can count.
pub open spec fn counted_sum(a: nat, b: nat) -> nat {
    if a + b <= usize::MAX {
        a + b
    } else {
        usize::MAX as nat
    }
}

/// What a search found is taken in: matches only where all of them were reported, and
/// bytes only where ripgrep reported them.
pub open spec fn with_output(
    p: ProgressView,
    matches: Seq<MatchView>,
    bytes: nat,
    truncated: bool,
    backend: SearchBackend,
) -> ProgressView {
    ProgressView {
        builtin: p.builtin || backend == SearchBackend::Builtin,
        bytes: if backend == SearchBackend::Ripgrep {
            counted_sum(p.bytes, bytes)
        } else {
            p.bytes
        },
        truncated: p.truncated || truncated,
        matches: if truncated {
            p.matches
        } else {
            p.matches + matches
        },
        ..p
    }
}

/// The state once the answer to a search is known.
pub open spec fn answered(p: ProgressView, answer: Result<SearchOutput, SearchError>) -> ProgressView {
    match answer {
        Ok(o) => with_output(
            p,
            match_views(o.matches@),
            o.output_bytes as nat,
            o.truncated,
            o.backend,
        ),
        Err(SearchError::RipgrepNotFound) => ProgressView { phase: SearchPhase::TrackedFiles, ..p },
        Err(SearchError::Failed(_)) => ProgressView {
            phase: SearchPhase::Finished,
            unavailable: true,
            ..p
        },
    }
}

/// The state once the answer to the search through tracked files is known.
pub open spec fn tracked_answered(p: ProgressView, answer: Option<SearchOutput>) -> ProgressView {
    match answer {
        Some(o) => ProgressView {
            phase: SearchPhase::Finished,
            builtin: true,
            truncated: p.truncated || o.truncated,
            matches: if o.truncated {
                p.matches
            } else {
                p.matches + match_views(o.matches@)
            },
            ..p
        },
        None => ProgressView { phase: SearchPhase::Finished, unavailable: true, ..p },
    }
}

/// However the searches are answered, no more are made than fit, none is given more
/// bytes or time than one may take, and none more than is left.
pub proof fn law_searches_are_bounded(p: ProgressView, origins: Seq<Origin>, elapsed: nat)
    requires
        progress_valid(p),
    ensures
        progress_valid(next_view(p, origins, elapsed).0),
        next_view(p, origins, elapsed).0.calls <= MAX_RG_CALLS,
        match next_view(p, origins, elapsed).1 {
            StepView::Search { max_output_bytes, timeout_nanos, .. } => {
                &&& max_output_bytes <= MAX_RG_OUTPUT_BYTES_PER_CALL
                &&& p.bytes + max_output_bytes <= MAX_RG_OUTPUT_BYTES
                &&& timeout_nanos <= MAX_RG_CALL_TIME
                &&& elapsed + timeout_nanos <= MAX_SEARCH_TIME
            },
            StepView::SearchTrackedFiles { max_output_bytes, timeout_nanos } => {
                &&& max_output_bytes <= MAX_RG_OUTPUT_BYTES
                &&& timeout_nanos <= MAX_SEARCH_TIME
            },
            StepView::Finish => next_view(p, origins, elapsed).0.phase == SearchPhase::Finished,
        },
{
}

/// An answer keeps the state valid, and a search that keeps to its bound keeps all
/// searches to theirs.
pub proof fn law_answers_keep_the_bound(
    p: ProgressView,
    matches: Seq<MatchView>,
    bytes: nat,
    truncated: bool,
    backend: SearchBackend,
)
    requires
        progress_valid(p),
        p.bytes + bytes <= MAX_RG_OUTPUT_BYTES,
    ensures
        progress_valid(with_output(p, matches, bytes, truncated, backend)),
        with_output(p, matches, bytes, truncated, backend).bytes <= MAX_RG_OUTPUT_BYTES,
{
}

impl SearchProgress {
    /// What the searches start with.
    pub fn start(symbols: &Vec<String>) -> (r: Self)
        ensures
            r@ == progress_start(views(symbols@)),
            progress_valid(r@),
    {
        let mut searched = copy_texts(symbols);
        let truncated = symbols.len() > MAX_RG_CALLS;
        if truncated {
            searched.truncate(MAX_RG_CALLS);
            proof {
                assert(views(searched@) =~= views(symbols@).take(MAX_RG_CALLS as int));
            }
        }
        let matches: Vec<SearchMatch> = Vec::new();
        proof {
            assert(match_views(matches@) =~= Seq::empty());
            assert(views(searched@).len() == searched@.len());
        }
        SearchProgress {
            symbols: searched,
            phase: SearchPhase::Searching,
            rg_calls: 0,
            rg_output_bytes: 0,
            truncated,
            unavailable: false,
            used_builtin_search: false,
            matches,
        }
    }

    /// What is to be done next, once `elapsed_nanos` have passed since the start.
    pub fn next_step(
        &mut self,
        origins: &Vec<(String, String)>,
        elapsed_nanos: u64,
    ) -> (r: SearchStep)
        requires
            progress_valid(old(self)@),
        ensures
            (final(self)@, r@) == next_view(
                old(self)@,
                origin_views(origins@),
                elapsed_nanos as nat,
            ),
            progress_valid(final(self)@),
    {
        proof {
            assert(views(self.symbols@).len() == self.symbols@.len());
        }
        match self.phase {
            SearchPhase::Finished => SearchStep::Finish,
            SearchPhase::TrackedFiles => {
                let max_output_bytes: usize = if self.rg_output_bytes >= MAX_RG_OUTPUT_BYTES {
                    0
                } else {
                    MAX_RG_OUTPUT_BYTES - self.rg_output_bytes
                };
                let timeout_nanos: u64 = if elapsed_nanos >= MAX_SEARCH_TIME {
                    0
                } else {
                    MAX_SEARCH_TIME - elapsed_nanos
                };
                SearchStep::SearchTrackedFiles { max_output_bytes, timeout_nanos }
            },
            SearchPhase::Searching => {
                if self.rg_calls >= self.symbols.len() {
                    self.phase = SearchPhase::Finished;
                    return SearchStep::Finish;
                }
                if elapsed_nanos >= MAX_SEARCH_TIME || self.rg_output_bytes
                    >= MAX_RG_OUTPUT_BYTES {
                    self.truncated = true;
                    self.phase = SearchPhase::Finished;
                    return SearchStep::Finish;
                }
                let at: usize = self.rg_calls;
                proof {
                    assert(views(self.symbols@)[at as int] == self.symbols@[at as int]@);
                }
                let symbol = self.symbols[at].clone();
                let origin = match find_origin(origins, symbol.as_str()) {
                    Some(path) => path.to_owned(),
                    None => "[unknown]".to_owned(),
                };
                let bytes_left: usize = MAX_RG_OUTPUT_BYTES - self.rg_output_bytes;
                let time_left: u64 = MAX_SEARCH_TIME - elapsed_nanos;
                let max_output_bytes: usize = if bytes_left <= MAX_RG_OUTPUT_BYTES_PER_CALL {
                    bytes_left
                } else {
                    MAX_RG_OUTPUT_BYTES_PER_CALL
                };
                let timeout_nanos: u64 = if time_left <= MAX_RG_CALL_TIME {
                    time_left
                } else {
                    MAX_RG_CALL_TIME
                };
                self.rg_calls = at + 1;
                SearchStep::Search { symbol, origin, max_output_bytes, timeout_nanos }
            },
        }
    }

    /// Takes in the answer to a search.
    pub fn record(&mut self, answer: Result<SearchOutput, SearchError>)
        requires
            progress_valid(old(self)@),
        ensures
            final(self)@ == answered(old(self)@, answer),
            progress_valid(final(self)@),
    {
        match answer {
            Ok(output) => {
                let ghost found = match_views(output.matches@);
                if output.backend == SearchBackend::Builtin {
                    self.used_builtin_search = true;
                } else {
                    self.rg_output_bytes = self.rg_output_bytes.saturating_add(
                        output.output_bytes,
                    );
                }
                if output.truncated {
                    self.truncated = true;
                } else {
                    let ghost before = match_views(self.matches@);
                    let mut more = output.matches;
                    self.matches.append(&mut more);
                    proof {
                        assert(match_views(self.matches@) =~= before + found);
                    }
                }
            },
            Err(SearchError::RipgrepNotFound) => {
                self.phase = SearchPhase::TrackedFiles;
            },
            Err(SearchError::Failed(_)) => {
                self.unavailable = true;
                self.phase = SearchPhase::Finished;
            },
        }
    }

    /// Takes in the answer to the search through tracked files.
    pub fn record_tracked(&mut self, answer: Option<SearchOutput>)
        requires
            progress_valid(old(self)@),
        ensures
            final(self)@ == tracked_answered(old(self)@, answer),
            progress_valid(final(self)@),
    {
        self.phase = SearchPhase::Finished;
        match answer {
            Some(output) => {
                let ghost found = match_views(output.matches@);
                self.used_builtin_search = true;
                if output.truncated {
                    self.truncated = true;
                } else {
                    let ghost before = match_views(self.matches@);
                    let mut more = output.matches;
                    self.matches.append(&mut more);
                    proof {
                        assert(match_views(self.matches@) =~= before + found);
                    }
                }
            },
            None => {
                self.unavailable = true;
            },
        }
    }
}

// ---------------------------------------------------------------------------
// The search through tracked files
// ---------------------------------------------------------------------------

/// What the search through tracked files has found.
pub struct ScanView {
    pub matches: Seq<MatchView>,
    pub bytes: nat,
    pub cut: bool,
}

/// What the search through tracked files has found.
#[derive(Debug, PartialEq, Eq)]
pub struct TrackedScan {
    pub matches: Vec<SearchMatch>,
    pub output_bytes: usize,
    pub truncated: bool,
}

impl View for TrackedScan {
    type V = ScanView;

    open spec fn view(&self) -> ScanView {
        ScanView {
            matches: match_views(self.matches@),
            bytes: self.output_bytes as nat,
            cut: self.truncated,
        }
    }
}

/// The file in which an identifier changed, as a match names it.
pub open spec fn named_origin(origins: Seq<Origin>, symbol: Seq<char>) -> Seq<char> {
    match origin_of(origins, symbol) {
        Some(path) => path,
        None => "[unknown]"@,
    }
}

/// What a match counts for.
pub open spec fn match_bytes(
    path: Seq<char>,
    line: Seq<char>,
    symbol: Seq<char>,
    origin: Seq<char>,
) -> nat {
    let sum = counted_bytes(path) + counted_bytes(line) + counted_bytes(symbol) + counted_bytes(
        origin,
    );
    if sum < BUILTIN_MATCH_ALLOCATION_BYTES {
        BUILTIN_MATCH_ALLOCATION_BYTES as nat
    } else if sum <= usize::MAX {
        sum
    } else {
        usize::MAX as nat
    }
}

/// What has been found once a line was searched for the first `upto` identifiers.
pub open spec fn scan_line(
    s: ScanView,
    path: Seq<char>,
    number: int,
    line: Seq<char>,
    symbols: Seq<Seq<char>>,
    origins: Seq<Origin>,
    max: nat,
    upto: int,
) -> ScanView
    decreases upto,
{
    if upto <= 0 {
        s
    } else {
        let before = scan_line(s, path, number, line, symbols, origins, max, upto - 1);
        let symbol = symbols[upto - 1];
        let origin = named_origin(origins, symbol);
        let size = match_bytes(path, line, symbol, origin);
        if before.cut || !has_text(line, symbol) {
            before
        } else if counted_sum(before.bytes, size) > max {
            ScanView { cut: true, ..before }
        } else {
            ScanView {
                matches: before.matches.push(
                    MatchView { path, line: number as usize, text: line, symbol, origin },
                ),
                bytes: counted_sum(before.bytes, size),
                ..before
            }
        }
    }
}

/// What has been found once the first `upto` lines of a file were searched.
pub open spec fn scan_lines(
    s: ScanView,
    path: Seq<char>,
    lines: Seq<Seq<char>>,
    symbols: Seq<Seq<char>>,
    origins: Seq<Origin>,
    max: nat,
    upto: int,
) -> ScanView
    decreases upto,
{
    if upto <= 0 {
        s
    } else {
        scan_line(
            scan_lines(s, path, lines, symbols, origins, max, upto - 1),
            path,
            upto,
            lines[upto - 1],
            symbols,
            origins,
            max,
            symbols.len() as int,
        )
    }
}

/// What has been found once a file was searched: nothing of a file that is too large.
pub open spec fn scan_file(
    s: ScanView,
    path: Seq<char>,
    source: Seq<char>,
    symbols: Seq<Seq<char>>,
    origins: Seq<Origin>,
    max: nat,
) -> ScanView {
    if counted_bytes(source) > MAX_SEMANTIC_FILE_BYTES {
        s
    } else {
        let all = lines_of(source);
        scan_lines(s, path, all, symbols, origins, max, all.len() as int)
    }
}

/// Matches of tracked files count for at least their share, so a bound on the bytes
/// bounds their number.
pub proof fn law_scan_line_is_bounded(
    s: ScanView,
    path: Seq<char>,
    number: int,
    line: Seq<char>,
    symbols: Seq<Seq<char>>,
    origins: Seq<Origin>,
    max: nat,
    upto: int,
)
    requires
        s.matches.len() * BUILTIN_MATCH_ALLOCATION_BYTES <= s.bytes,
        s.bytes <= max < usize::MAX,
    ensures
        ({
            let t = scan_line(s, path, number, line, symbols, origins, max, upto);
            &&& t.matches.len() * BUILTIN_MATCH_ALLOCATION_BYTES <= t.bytes
            &&& t.bytes <= max
            &&& s.cut ==> t == s
        }),
    decreases upto,
{
    if upto > 0 {
        law_scan_line_is_bounded(s, path, number, line, symbols, origins, max, upto - 1);
    }
}

fn size_of_match(path: &str, line: &str, symbol: &str, origin: &str) -> (r: usize)
    ensures
        r == match_bytes(path@, line@, symbol@, origin@),
{
    let sum: usize = byte_len(path).saturating_add(byte_len(line)).saturating_add(
        byte_len(symbol),
    ).saturating_add(byte_len(origin));
    if sum < BUILTIN_MATCH_ALLOCATION_BYTES {
        BUILTIN_MATCH_ALLOCATION_BYTES
    } else {
        sum
    }
}

impl TrackedScan {
    /// Nothing has been searched. `truncated` says that the list of files was cut.
    pub fn start(truncated: bool) -> (r: Self)
        ensures
            r@ == (ScanView { matches: Seq::empty(), bytes: 0, cut: truncated }),
    {
        let matches: Vec<SearchMatch> = Vec::new();
        proof {
            assert(match_views(matches@) =~= Seq::empty());
        }
        TrackedScan { matches, output_bytes: 0, truncated }
    }

    /// Searches a line for the identifiers.
    fn scan_one_line(
        &mut self,
        path: &str,
        number: usize,
        line: &str,
        symbols: &Vec<String>,
        origins: &Vec<(String, String)>,
        max_output_bytes: usize,
    )
        ensures
            final(self)@ == scan_line(
                old(self)@,
                path@,
                number as int,
                line@,
                views(symbols@),
                origin_views(origins@),
                max_output_bytes as nat,
                symbols@.len() as int,
            ),
    {
        let ghost start = self@;
        let ghost all = views(symbols@);
        let mut k: usize = 0;
        while k < symbols.len()
            invariant
                k <= symbols@.len(),
                all == views(symbols@),
                self@ == scan_line(
                    start,
                    path@,
                    number as int,
                    line@,
                    all,
                    origin_views(origins@),
                    max_output_bytes as nat,
                    k as int,
                ),
            decreases symbols@.len() - k,
        {
            let ghost before = match_views(self.matches@);
            let symbol = &symbols[k];
            proof {
                assert(all[k as int] == symbol@);
            }
            if !self.truncated && contains(line, symbol.as_str()) {
                let origin = match find_origin(origins, symbol.as_str()) {
                    Some(p) => p.to_owned(),
                    None => "[unknown]".to_owned(),
                };
                let size: usize = size_of_match(path, line, symbol.as_str(), origin.as_str());
                let sum: usize = self.output_bytes.saturating_add(size);
                if sum > max_output_bytes {
                    self.truncated = true;
                } else {
                    self.output_bytes = sum;
                    let found = SearchMatch {
                        path: path.to_owned(),
                        line: number,
                        text: line.to_owned(),
                        symbol: symbol.clone(),
                        origin,
                    };
                    self.matches.push(found);
                    proof {
                        assert(match_views(self.matches@) =~= before.push(found@));
                    }
                }
            }
            k += 1;
        }
    }

    /// Searches a tracked file for the identifiers.
    pub fn scan(
        &mut self,
        path: &str,
        source: &str,
        symbols: &Vec<String>,
        origins: &Vec<(String, String)>,
        max_output_bytes: usize,
    )
        ensures
            final(self)@ == scan_file(
                old(self)@,
                path@,
                source@,
                views(symbols@),
                origin_views(origins@),
                max_output_bytes as nat,
            ),
    {
        if byte_len(source) > MAX_SEMANTIC_FILE_BYTES {
            return;
        }
        let ghost start = self@;
        let all = lines(source);
        let mut i: usize = 0;
        proof {
            assert(views(all@).len() == all@.len());
        }
        while i < all.len()
            invariant
                i <= all@.len(),
                views(all@) == lines_of(source@),
                self@ == scan_lines(
                    start,
                    path@,
                    views(all@),
                    views(symbols@),
                    origin_views(origins@),
                    max_output_bytes as nat,
                    i as int,
                ),
            decreases all@.len() - i,
        {
            proof {
                assert(views(all@)[i as int] == all@[i as int]@);
            }
            self.scan_one_line(
                path,
                i + 1,
                all[i].as_str(),
                symbols,
                origins,
                max_output_bytes,
            );
            i += 1;
        }
    }

    /// What the search has found, as a search output.
    pub fn output(self) -> (r: SearchOutput)
        ensures
            r.matches == self.matches,
            r.output_bytes == self.output_bytes,
            r.truncated == self.truncated,
            r.backend == SearchBackend::Builtin,
    {
        SearchOutput {
            matches: self.matches,
            output_bytes: self.output_bytes,
            truncated: self.truncated,
            backend: SearchBackend::Builtin,
        }
    }
}

// ---------------------------------------------------------------------------
// The report
// ---------------------------------------------------------------------------

/// How the context was found.
#[derive(Debug, Clone, Copy, PartialEq, Eq, Structural)]
pub enum SemanticContextStatus {
    Collected,
    Fallback,
    Unavailable,
}

/// What the report says of an excerpt.
#[derive(Debug, PartialEq, Eq)]
pub struct SemanticContextExcerptReport {
    pub path: String,
    pub start_line: u32,
    pub end_line: u32,
    pub reason: String,
    pub relation: String,
    pub bytes: u32,
    pub truncated: bool,
    pub reviewed_sha: String,
}

/// How the context was found.
#[derive(Debug, PartialEq, Eq)]
pub struct SemanticContextReport {
    pub status: SemanticContextStatus,
    pub reviewed_sha: String,
    pub parser: String,
    pub changed_symbol_count: u32,
    pub candidate_count: u32,
    pub selected_count: u32,
    pub rg_calls: u32,
    pub rg_output_bytes: u32,
    pub selected_bytes: u32,
    pub truncated: bool,
    pub fallback_reason: Option<String>,
    pub excerpts: Vec<SemanticContextExcerptReport>,
}

/// An excerpt that is shown.
#[derive(Debug, PartialEq, Eq)]
pub struct SemanticExcerpt {
    pub path: String,
    pub start_line: u32,
    pub end_line: u32,
    pub reason: String,
    pub relation: String,
    pub contents: String,
}

/// The excerpts that are shown, and how they were found.
#[derive(Debug, PartialEq, Eq)]
pub struct SemanticContext {
    pub report: SemanticContextReport,
    pub excerpts: Vec<SemanticExcerpt>,
}

/// A number, as far as `u32` can hold it.
pub open spec fn capped(n: nat) -> u32 {
    if n <= u32::MAX {
        n as u32
    } else {
        u32::MAX
    }
}

/// A number, as far as `u32` can hold it.
pub fn cap(n: usize) -> (r: u32)
    ensures
        r == capped(n as nat),
{
    if n <= u32::MAX as usize {
        n as u32
    } else {
        u32::MAX
    }
}

/// What the report calls the way the context was found.
pub open spec fn parser_name(rust: bool, text: bool, builtin: bool) -> Seq<char> {
    if builtin {
        if rust && text {
            "tree_sitter_rust+text+builtin_search"@
        } else if rust {
            "tree_sitter_rust+builtin_search"@
        } else {
            "text+builtin_search"@
        }
    } else {
        if rust && text {
            "tree_sitter_rust+text+rg"@
        } else if rust {
            "tree_sitter_rust+rg"@
        } else {
            "text+rg"@
        }
    }
}

/// Why the context was not found in the best way.
pub open spec fn fallback_text(
    no_symbols: bool,
    text: bool,
    builtin: bool,
    unavailable: bool,
) -> Option<Seq<char>> {
    let searched = "built-in tracked-file search was used because ripgrep was unavailable"@;
    let first = if no_symbols {
        Some("no stable identifiers were found on added lines"@)
    } else if text {
        Some("text identifier fallback was used for unsupported or unparsed files"@)
    } else {
        None
    };
    if unavailable {
        Some("ripgrep was unavailable or failed; review continued without semantic excerpts"@)
    } else if builtin {
        match first {
            Some(existing) => Some(existing + "; "@ + searched),
            None => Some(searched),
        }
    } else {
        first
    }
}

/// How the context was found.
pub open spec fn context_status(
    no_symbols: bool,
    text: bool,
    builtin: bool,
    unavailable: bool,
) -> SemanticContextStatus {
    if unavailable {
        SemanticContextStatus::Unavailable
    } else if text || builtin || no_symbols {
        SemanticContextStatus::Fallback
    } else {
        SemanticContextStatus::Collected
    }
}

/// An excerpt is shown as it was selected.
pub open spec fn shown_as(s: SemanticExcerpt, e: ExcerptView) -> bool {
    &&& s.path@ == e.path
    &&& s.start_line == capped(e.start_line as nat)
    &&& s.end_line == capped(e.end_line as nat)
    &&& s.reason@ == e.reason
    &&& s.relation@ == e.relation
    &&& s.contents@ == e.contents
}

/// An excerpt is reported as it was selected, without its contents.
pub open spec fn reported_as(
    s: SemanticContextExcerptReport,
    e: ExcerptView,
    sha: Seq<char>,
) -> bool {
    &&& s.path@ == e.path
    &&& s.start_line == capped(e.start_line as nat)
    &&& s.end_line == capped(e.end_line as nat)
    &&& s.reason@ == e.reason
    &&& s.relation@ == e.relation
    &&& s.bytes == capped(counted_bytes(e.contents))
    &&& s.truncated == e.truncated
    &&& s.reviewed_sha@ == sha
}

/// The candidates that were found: those that are loaded, how many there are in all, and
/// whether some are not loaded.
#[derive(Debug, PartialEq, Eq)]
pub struct CandidateSet {
    pub candidates: Vec<SearchMatch>,
    pub count: usize,
    pub truncated: bool,
}

/// The matches that count: none once a search has failed.
pub open spec fn usable_matches(p: ProgressView) -> Seq<MatchView> {
    if p.unavailable {
        Seq::empty()
    } else {
        p.matches
    }
}

/// The candidates that were found outside the changed files.
pub fn find_candidates(progress: &SearchProgress, changed_files: &Vec<String>) -> (r: CandidateSet)
    ensures
        ({
            let found = candidates_of(usable_matches(progress@), views(changed_files@));
            &&& match_views(r.candidates@) == bounded(sorted(found))
            &&& r.count == found.len()
            &&& r.truncated == (r.candidates@.len() < found.len())
        }),
{
    let none: Vec<SearchMatch> = Vec::new();
    proof {
        assert(match_views(none@) =~= Seq::empty());
    }
    let found = if progress.unavailable {
        select_candidates(&none, changed_files)
    } else {
        select_candidates(&progress.matches, changed_files)
    };
    let count: usize = found.len();
    proof {
        assert(match_views(found@).len() == found@.len());
    }
    let kept = bound_source_candidates(found);
    CandidateSet { candidates: kept.0, count, truncated: kept.1 }
}

fn parser_of(rust: bool, text: bool, builtin: bool) -> (r: &'static str)
    ensures
        r@ == parser_name(rust, text, builtin),
{
    if builtin {
        if rust && text {
            "tree_sitter_rust+text+builtin_search"
        } else if rust {
            "tree_sitter_rust+builtin_search"
        } else {
            "text+builtin_search"
        }
    } else {
        if rust && text {
            "tree_sitter_rust+text+rg"
        } else if rust {
            "tree_sitter_rust+rg"
        } else {
            "text+rg"
        }
    }
}

fn fallback_of(no_symbols: bool, text: bool, builtin: bool, unavailable: bool) -> (r: Option<
    String,
>)
    ensures
        opt_view(r) == fallback_text(no_symbols, text, builtin, unavailable),
{
    if unavailable {
        return Some(
            "ripgrep was unavailable or failed; review continued without semantic excerpts"
                .to_owned(),
        );
    }
    let searched = "built-in tracked-file search was used because ripgrep was unavailable";
    if no_symbols {
        let first = "no stable identifiers were found on added lines";
        if builtin {
            Some(concat3(first, "; ", searched))
        } else {
            Some(first.to_owned())
        }
    } else if text {
        let first = "text identifier fallback was used for unsupported or unparsed files";
        if builtin {
            Some(concat3(first, "; ", searched))
        } else {
            Some(first.to_owned())
        }
    } else if builtin {
        Some(searched.to_owned())
    } else {
        None
    }
}

/// The context that is shown with a change, and the report on it.
pub fn finish_semantic_context(
    reviewed_sha: &str,
    changed: &ChangedSymbols,
    progress: &SearchProgress,
    found: &CandidateSet,
    loaded: &Vec<Option<(String, bool)>>,
) -> (r: SemanticContext)
    requires
        found.candidates@.len() == loaded@.len(),
    ensures
        ({
            let s = selection(
                sorted(excerpts_of(match_views(found.candidates@), loaded_views(loaded@))),
            );
            let none = changed.symbols@.len() == 0;
            let text = changed.used_text_fallback;
            &&& r.excerpts@.len() == s.shown.len()
            &&& forall|i: int|
                0 <= i < s.shown.len() ==> shown_as(#[trigger] r.excerpts@[i], s.shown[i])
            &&& r.report.excerpts@.len() == s.shown.len()
            &&& forall|i: int|
                0 <= i < s.shown.len() ==> reported_as(
                    #[trigger] r.report.excerpts@[i],
                    s.shown[i],
                    reviewed_sha@,
                )
            &&& r.report.status == context_status(
                none,
                text,
                progress@.builtin,
                progress@.unavailable,
            )
            &&& r.report.reviewed_sha@ == reviewed_sha@
            &&& r.report.parser@ == parser_name(changed.used_rust_parser, text, progress@.builtin)
            &&& r.report.changed_symbol_count == capped(changed.symbols@.len())
            &&& r.report.candidate_count == capped(found.count as nat)
            &&& r.report.selected_count == capped(s.shown.len())
            &&& r.report.rg_calls == capped(progress@.calls)
            &&& r.report.rg_output_bytes == capped(progress@.bytes)
            &&& r.report.selected_bytes == s.bytes
            &&& r.report.truncated == (progress@.truncated || found.truncated || s.cut)
            &&& opt_view(r.report.fallback_reason) == fallback_text(
                none,
                text,
                progress@.builtin,
                progress@.unavailable,
            )
        }),
        r.excerpts@.len() <= MAX_SEMANTIC_EXCERPTS,
        r.report.selected_bytes <= MAX_SEMANTIC_CONTEXT_BYTES,
{
    let ranked = rank_candidates(&found.candidates, loaded);
    let ghost s = selection(sorted(excerpt_views(ranked@)));
    proof {
        law_selection(sorted(excerpt_views(ranked@)));
    }
    let chosen = select_excerpts(ranked);
    let selected = chosen.0;
    let mut excerpts: Vec<SemanticExcerpt> = Vec::new();
    let mut reports: Vec<SemanticContextExcerptReport> = Vec::new();
    let mut i: usize = 0;
    proof {
        assert(excerpt_views(selected@).len() == selected@.len());
    }
    while i < selected.len()
        invariant
            i <= selected@.len(),
            s.shown == excerpt_views(selected@),
            excerpts@.len() == i,
            reports@.len() == i,
            forall|k: int| 0 <= k < i ==> shown_as(#[trigger] excerpts@[k], s.shown[k]),
            forall|k: int|
                0 <= k < i ==> reported_as(#[trigger] reports@[k], s.shown[k], reviewed_sha@),
        decreases selected@.len() - i,
    {
        let e = &selected[i];
        proof {
            assert(s.shown[i as int] == e@);
        }
        excerpts.push(
            SemanticExcerpt {
                path: e.path.clone(),
                start_line: cap(e.start_line),
                end_line: cap(e.end_line),
                reason: e.reason.clone(),
                relation: e.relation.clone(),
                contents: e.contents.clone(),
            },
        );
        reports.push(
            SemanticContextExcerptReport {
                path: e.path.clone(),
                start_line: cap(e.start_line),
                end_line: cap(e.end_line),
                reason: e.reason.clone(),
                relation: e.relation.clone(),
                bytes: cap(byte_len(e.contents.as_str())),
                truncated: e.truncated,
                reviewed_sha: reviewed_sha.to_owned(),
            },
        );
        i += 1;
    }
    let none = changed.symbols.len() == 0;
    let text = changed.used_text_fallback;
    let builtin = progress.used_builtin_search;
    let unavailable = progress.unavailable;
    let status = if unavailable {
        SemanticContextStatus::Unavailable
    } else if text || builtin || none {
        SemanticContextStatus::Fallback
    } else {
        SemanticContextStatus::Collected
    };
    let report = SemanticContextReport {
        status,
        reviewed_sha: reviewed_sha.to_owned(),
        parser: parser_of(changed.used_rust_parser, text, builtin).to_owned(),
        changed_symbol_count: cap(changed.symbols.len()),
        candidate_count: cap(found.count),
        selected_count: cap(reports.len()),
        rg_calls: cap(progress.rg_calls),
        rg_output_bytes: cap(progress.rg_output_bytes),
        selected_bytes: cap(chosen.1),
        truncated: progress.truncated || found.truncated || chosen.2,
        fallback_reason: fallback_of(none, text, builtin, unavailable),
        excerpts: reports,
    };
    SemanticContext { report, excerpts }
}

/// The context where none can be collected.
pub fn unavailable_semantic_context(reviewed_sha: &str, reason: &str) -> (r: SemanticContext)
    ensures
        r.excerpts@.len() == 0,
        r.report.excerpts@.len() == 0,
        r.report.status == SemanticContextStatus::Unavailable,
        r.report.reviewed_sha@ == reviewed_sha@,
        r.report.parser@ == "none"@,
        r.report.changed_symbol_count == 0,
        r.report.candidate_count == 0,
        r.report.selected_count == 0,
        r.report.rg_calls == 0,
        r.report.rg_output_bytes == 0,
        r.report.selected_bytes == 0,
        !r.report.truncated,
        opt_view(r.report.fallback_reason) == Some(reason@),
{
    let report = SemanticContextReport {
        status: SemanticContextStatus::Unavailable,
        reviewed_sha: reviewed_sha.to_owned(),
        parser: "none".to_owned(),
        changed_symbol_count: 0,
        candidate_count: 0,
        selected_count: 0,
        rg_calls: 0,
        rg_output_bytes: 0,
        selected_bytes: 0,
        truncated: false,
        fallback_reason: Some(reason.to_owned()),
        excerpts: Vec::new(),
    };
    SemanticContext { report, excerpts: Vec::new() }
}

/// A search that fails leaves nothing to show: no candidate is loaded, so no excerpt is.
pub proof fn law_failed_search_shows_nothing(
    p: ProgressView,
    reason: SearchError,
    changed: Seq<Seq<char>>,
)
    requires
        reason is Failed,
    ensures
        ({
            let q = answered(p, Err(reason));
            &&& q.phase == SearchPhase::Finished
            &&& candidates_of(usable_matches(q), changed) == Seq::<MatchView>::empty()
            &&& bounded(sorted(candidates_of(usable_matches(q), changed))) == Seq::<
                MatchView,
            >::empty()
        }),
{
}

// ---------------------------------------------------------------------------
// What holds of it
// ---------------------------------------------------------------------------

/// The identifiers are searched for one after the other, each once, while there is time and
/// room; the first sixteen are, and it is known if there were more.
pub proof fn law_symbols_are_searched_in_order(
    symbols: Seq<Seq<char>>,
    p: ProgressView,
    origins: Seq<Origin>,
    elapsed: nat,
)
    requires
        p.phase == SearchPhase::Searching,
    ensures
        symbols.len() <= 16 ==> progress_start(symbols).symbols == symbols && !progress_start(
            symbols,
        ).truncated,
        symbols.len() > 16 ==> progress_start(symbols).symbols == symbols.take(16)
            && progress_start(symbols).truncated,
        progress_start(symbols).calls == 0 && progress_start(symbols).phase
            == SearchPhase::Searching,
        p.calls < p.symbols.len() && elapsed < 3_000_000_000 && p.bytes < 262144 ==> ({
            let (q, step) = next_view(p, origins, elapsed);
            &&& q == (ProgressView { calls: p.calls + 1, ..p })
            &&& step matches StepView::Search { symbol, origin, max_output_bytes, timeout_nanos }
                && symbol == p.symbols[p.calls as int] && max_output_bytes > 0 && timeout_nanos > 0
                && (origin_of(origins, symbol) matches Some(path) ==> origin == path) && (
            origin_of(origins, symbol) is None ==> origin == "[unknown]"@)
        }),
        p.calls >= p.symbols.len() ==> next_view(p, origins, elapsed) == (
            ProgressView { phase: SearchPhase::Finished, ..p },
            StepView::Finish,
        ),
        p.calls < p.symbols.len() && (elapsed >= 3_000_000_000 || p.bytes >= 262144) ==> ({
            let (q, step) = next_view(p, origins, elapsed);
            q.truncated && q.phase == SearchPhase::Finished && step == StepView::Finish && q.matches
                == p.matches
        }),
{
}

/// What a search found counts exactly if it was not cut off, behind what was found before;
/// what ripgrep wrote counts against the room, and only that.
pub proof fn law_whole_answers_count(
    p: ProgressView,
    matches: Seq<MatchView>,
    bytes: nat,
    backend: SearchBackend,
)
    ensures
        with_output(p, matches, bytes, false, backend).matches == p.matches + matches,
        with_output(p, matches, bytes, true, backend).matches == p.matches,
        with_output(p, matches, bytes, true, backend).truncated,
        with_output(p, matches, bytes, false, backend).truncated == p.truncated,
        p.bytes + bytes <= usize::MAX ==> with_output(
            p,
            matches,
            bytes,
            false,
            SearchBackend::Ripgrep,
        ).bytes == p.bytes + bytes,
        with_output(p, matches, bytes, false, SearchBackend::Builtin).bytes == p.bytes,
        with_output(p, matches, bytes, false, SearchBackend::Builtin).builtin,
        with_output(p, matches, bytes, false, SearchBackend::Ripgrep).builtin == p.builtin,
        with_output(p, matches, bytes, false, backend).phase == p.phase,
        with_output(p, matches, bytes, false, backend).calls == p.calls,
{
}

/// Where ripgrep is missing, the tracked files are searched; where that fails too, or
/// ripgrep fails, the search is over and told to be unavailable.
pub proof fn law_missing_tools_are_replaced(
    p: ProgressView,
    o: SearchOutput,
    reason: SearchError,
    origins: Seq<Origin>,
    elapsed: nat,
)
    ensures
        answered(p, Err(SearchError::RipgrepNotFound)).phase == SearchPhase::TrackedFiles,
        answered(p, Err(SearchError::RipgrepNotFound)).matches == p.matches,
        !answered(p, Err(SearchError::RipgrepNotFound)).unavailable || p.unavailable,
        reason is Failed ==> answered(p, Err(reason)).unavailable && answered(
            p,
            Err(reason),
        ).phase == SearchPhase::Finished,
        tracked_answered(p, None).unavailable && tracked_answered(p, None).phase
            == SearchPhase::Finished,
        tracked_answered(p, Some(o)).phase == SearchPhase::Finished && tracked_answered(
            p,
            Some(o),
        ).builtin,
        !o.truncated ==> tracked_answered(p, Some(o)).matches == p.matches + match_views(
            o.matches@,
        ),
        o.truncated ==> tracked_answered(p, Some(o)).matches == p.matches && tracked_answered(
            p,
            Some(o),
        ).truncated,
        p.phase == SearchPhase::TrackedFiles ==> next_view(p, origins, elapsed).1
            is SearchTrackedFiles && next_view(p, origins, elapsed).0 == p,
        p.phase == SearchPhase::Finished ==> next_view(p, origins, elapsed) == (
            p,
            StepView::Finish,
        ),
{
}

/// A line of a tracked file gives a match for each identifier that stands in it, with its
/// number, while there is room; one that does not stand in it gives none.
pub proof fn law_lines_give_matches(
    s: ScanView,
    path: Seq<char>,
    number: int,
    line: Seq<char>,
    symbols: Seq<Seq<char>>,
    origins: Seq<Origin>,
    max: nat,
    n: int,
)
    requires
        0 < n <= symbols.len(),
    ensures
        ({
            let before = scan_line(s, path, number, line, symbols, origins, max, n - 1);
            let after = scan_line(s, path, number, line, symbols, origins, max, n);
            let symbol = symbols[n - 1];
            let origin = named_origin(origins, symbol);
            let size = match_bytes(path, line, symbol, origin);
            &&& !has_text(line, symbol) ==> after == before
            &&& before.cut ==> after == before
            &&& !before.cut && has_text(line, symbol) && before.bytes + size <= max
                && before.bytes + size <= usize::MAX ==> after.matches == before.matches.push(
                MatchView { path, line: number as usize, text: line, symbol, origin },
            ) && after.bytes == before.bytes + size && !after.cut
            &&& !before.cut && has_text(line, symbol) && before.bytes + size > max && max
                < usize::MAX ==> after.matches == before.matches && after.cut
            &&& size >= 256
        }),
        scan_line(s, path, number, line, symbols, origins, max, 0) == s,
{
}

/// The lines of a file are scanned one after the other, numbered from one; a file that is
/// too large is not scanned.
pub proof fn law_files_are_scanned_line_by_line(
    s: ScanView,
    path: Seq<char>,
    lines: Seq<Seq<char>>,
    source: Seq<char>,
    symbols: Seq<Seq<char>>,
    origins: Seq<Origin>,
    max: nat,
    n: int,
)
    requires
        0 < n <= lines.len(),
    ensures
        scan_lines(s, path, lines, symbols, origins, max, 0) == s,
        scan_lines(s, path, lines, symbols, origins, max, n) == scan_line(
            scan_lines(s, path, lines, symbols, origins, max, n - 1),
            path,
            n,
            lines[n - 1],
            symbols,
            origins,
            max,
            symbols.len() as int,
        ),
        counted_bytes(source) > 262144 ==> scan_file(s, path, source, symbols, origins, max) == s,
        counted_bytes(source) <= 262144 ==> scan_file(s, path, source, symbols, origins, max)
            == scan_lines(
            s,
            path,
            lines_of(source),
            symbols,
            origins,
            max,
            lines_of(source).len() as int,
        ),
{
}

/// How the context was collected: without the search it is unavailable, with anything less
/// than syntax and ripgrep it is a fallback, and the reason is told exactly then.
pub proof fn law_statuses_tell_how_it_was_collected(
    none: bool,
    text: bool,
    builtin: bool,
    unavailable: bool,
)
    ensures
        context_status(none, text, builtin, unavailable) == SemanticContextStatus::Unavailable
            <==> unavailable,
        context_status(none, text, builtin, unavailable) == SemanticContextStatus::Collected
            <==> !none && !text && !builtin && !unavailable,
        fallback_text(none, text, builtin, unavailable) is None <==> context_status(
            none,
            text,
            builtin,
            unavailable,
        ) == SemanticContextStatus::Collected,
        fallback_text(none, text, builtin, true) == Some(
            "ripgrep was unavailable or failed; review continued without semantic excerpts"@,
        ),
        fallback_text(true, text, false, false) == Some(
            "no stable identifiers were found on added lines"@,
        ),
        fallback_text(false, true, false, false) == Some(
            "text identifier fallback was used for unsupported or unparsed files"@,
        ),
        fallback_text(false, false, true, false) == Some(
            "built-in tracked-file search was used because ripgrep was unavailable"@,
        ),
{
}

/// What is found is used exactly if the search was available.
pub proof fn law_found_matches_are_used(p: ProgressView)
    ensures
        p.unavailable ==> usable_matches(p).len() == 0,
        !p.unavailable ==> usable_matches(p) == p.matches,
{
}

} // verus!
