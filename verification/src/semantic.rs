//! Which identifiers a change touches, and which references to them are shown.
use vstd::prelude::*;

use crate::bytes::{fit, fitting};
use crate::extract::{
    deleted_symbols, extract_deleted_symbols, extract_rust_changed_symbols,
    extract_text_changed_symbols, first_n, rust_syntax, text_symbols, tree_symbols,
};
use crate::list::{deduplicate_preserving_order, distinct, law_distinct};
use crate::symbols::{
    anchor_views, anchors_of, file_line_views, line_views, lines_in, AddedLine, ParsedDiffLines,
    MAX_CHANGED_SYMBOLS,
};
use crate::text::{ends_with, opt_view, same_text, views};

verus! {

/// How many bytes of a source file are read.
pub const MAX_SEMANTIC_FILE_BYTES: usize = 262144;

// ---------------------------------------------------------------------------
// The identifiers of a change
// ---------------------------------------------------------------------------

/// An identifier with the file in which it changed.
pub type Origin = (Seq<char>, Seq<char>);

/// The file that an identifier was first recorded for.
pub open spec fn origin_of(origins: Seq<Origin>, symbol: Seq<char>) -> Option<Seq<char>>
    decreases origins.len(),
{
    if origins.len() == 0 {
        None
    } else {
        match origin_of(origins.drop_last(), symbol) {
            Some(path) => Some(path),
            None => if origins.last().0 == symbol {
                Some(origins.last().1)
            } else {
                None
            },
        }
    }
}

/// Each of the identifiers with the file in which it changed.
pub open spec fn from_file(symbols: Seq<Seq<char>>, path: Seq<char>) -> Seq<Origin> {
    symbols.map_values(|s: Seq<char>| (s, path))
}

/// What identifiers with their files say.
pub open spec fn origin_views(s: Seq<(String, String)>) -> Seq<Origin> {
    s.map_values(|o: (String, String)| (o.0@, o.1@))
}

/// Appends the identifiers to a list, and records the file that they changed in.
/// What was recorded first for an identifier stands.
pub fn record_symbols(
    target: &mut Vec<String>,
    origins: &mut Vec<(String, String)>,
    origin: &str,
    symbols: Vec<String>,
)
    ensures
        views(final(target)@) == views(old(target)@) + views(symbols@),
        origin_views(final(origins)@) == origin_views(old(origins)@) + from_file(
            views(symbols@),
            origin@,
        ),
{
    let ghost all = views(symbols@);
    let ghost target0 = views(target@);
    let ghost origins0 = origin_views(origins@);
    let mut i: usize = 0;
    proof {
        assert(target0 + all.take(0) =~= target0);
        assert(origins0 + from_file(all.take(0), origin@) =~= origins0);
    }
    while i < symbols.len()
        invariant
            i <= symbols@.len(),
            all == views(symbols@),
            views(target@) == target0 + all.take(i as int),
            origin_views(origins@) == origins0 + from_file(all.take(i as int), origin@),
        decreases symbols@.len() - i,
    {
        let ghost t = target@;
        let ghost o = origins@;
        target.push(symbols[i].clone());
        origins.push((symbols[i].clone(), origin.to_owned()));
        proof {
            let s = symbols@[i as int]@;
            assert(all.take(i + 1) =~= all.take(i as int).push(s));
            assert(views(target@) =~= views(t).push(s));
            assert(origin_views(origins@) =~= origin_views(o).push((s, origin@)));
            assert(from_file(all.take(i + 1), origin@) =~= from_file(
                all.take(i as int),
                origin@,
            ).push((s, origin@)));
            assert(views(target@) =~= target0 + all.take(i + 1));
            assert(origin_views(origins@) =~= origins0 + from_file(all.take(i + 1), origin@));
        }
        i += 1;
    }
    proof {
        assert(all.take(all.len() as int) =~= all);
    }
}

/// The file that an identifier was first recorded for.
pub fn find_origin<'a>(origins: &'a Vec<(String, String)>, symbol: &str) -> (r: Option<&'a str>)
    ensures
        match r {
            Some(path) => origin_of(origin_views(origins@), symbol@) == Some(path@),
            None => origin_of(origin_views(origins@), symbol@) is None,
        },
{
    let ghost all = origin_views(origins@);
    let mut i: usize = 0;
    while i < origins.len()
        invariant
            i <= origins@.len(),
            all == origin_views(origins@),
            origin_of(all.take(i as int), symbol@) is None,
        decreases origins@.len() - i,
    {
        proof {
            assert(all.take(i + 1).drop_last() =~= all.take(i as int));
            assert(all.take(i + 1).last() == (origins@[i as int].0@, origins@[i as int].1@));
        }
        if same_text(origins[i].0.as_str(), symbol) {
            proof {
                lemma_first_origin(all, symbol@, i + 1);
            }
            return Some(origins[i].1.as_str());
        }
        i += 1;
    }
    proof {
        assert(all.take(all.len() as int) =~= all);
    }
    None
}

/// What was recorded first for an identifier stands.
pub proof fn lemma_first_origin(origins: Seq<Origin>, symbol: Seq<char>, n: int)
    requires
        0 <= n <= origins.len(),
        origin_of(origins.take(n), symbol) is Some,
    ensures
        origin_of(origins, symbol) == origin_of(origins.take(n), symbol),
    decreases origins.len() - n,
{
    if n < origins.len() {
        assert(origins.take(n + 1).drop_last() =~= origins.take(n));
        lemma_first_origin(origins, symbol, n + 1);
    } else {
        assert(origins.take(n) =~= origins);
    }
}

/// What is known of the identifiers of the files that were looked at.
pub struct SymbolState {
    pub structured: Seq<Seq<char>>,
    pub fallback: Seq<Seq<char>>,
    pub origins: Seq<Origin>,
    pub used_rust_parser: bool,
    pub used_text_fallback: bool,
}

/// The identifiers that removed lines offer are recorded.
pub open spec fn with_deleted(
    s: SymbolState,
    path: Seq<char>,
    deleted: Seq<(usize, Seq<char>)>,
) -> SymbolState {
    let found = deleted_symbols(path, deleted);
    if deleted.len() == 0 || found.len() == 0 {
        s
    } else {
        with_fallback(s, path, found)
    }
}

/// Identifiers of plain text are recorded.
pub open spec fn with_fallback(
    s: SymbolState,
    path: Seq<char>,
    found: Seq<Seq<char>>,
) -> SymbolState {
    SymbolState {
        fallback: s.fallback + found,
        origins: s.origins + from_file(found, path),
        used_text_fallback: true,
        ..s
    }
}

/// The numbers of the lines.
pub open spec fn line_numbers(lines: Seq<(usize, Seq<char>)>) -> Seq<usize> {
    lines.map_values(|l: (usize, Seq<char>)| l.0)
}

/// The identifiers of a changed file are recorded.
pub open spec fn with_changed(
    s: SymbolState,
    path: Seq<char>,
    added: Seq<(usize, Seq<char>)>,
    anchors: Seq<usize>,
    source: Option<Seq<char>>,
) -> SymbolState {
    match source {
        Some(text) => if added.len() == 0 && anchors.len() == 0 {
            s
        } else {
            let kept = fitting(text, MAX_SEMANTIC_FILE_BYTES as nat);
            let found = tree_symbols(rust_syntax(kept), line_numbers(added) + anchors);
            if ".rs"@.is_suffix_of(path) && found.len() > 0 {
                SymbolState {
                    structured: s.structured + found,
                    origins: s.origins + from_file(found, path),
                    used_rust_parser: true,
                    ..s
                }
            } else {
                with_fallback(s, path, text_symbols(added))
            }
        },
        None => s,
    }
}

/// A diff as the lists of its lines.
pub struct DiffLists {
    pub added: Seq<crate::symbols::FileLine>,
    pub deleted: Seq<crate::symbols::FileLine>,
    pub anchors: Seq<(Seq<char>, usize)>,
}

impl View for ParsedDiffLines {
    type V = DiffLists;

    open spec fn view(&self) -> DiffLists {
        DiffLists {
            added: file_line_views(self.added@),
            deleted: file_line_views(self.deleted@),
            anchors: anchor_views(self.deleted_new_anchors@),
        }
    }
}

/// What is known once a file was looked at too.
pub open spec fn with_file(
    s: SymbolState,
    diff: DiffLists,
    path: Seq<char>,
    source: Option<Seq<char>>,
) -> SymbolState {
    with_changed(
        with_deleted(s, path, lines_in(diff.deleted, path)),
        path,
        lines_in(diff.added, path),
        anchors_of(diff.anchors, path),
        source,
    )
}

/// Nothing is known.
pub open spec fn no_symbols() -> SymbolState {
    SymbolState {
        structured: Seq::empty(),
        fallback: Seq::empty(),
        origins: Seq::empty(),
        used_rust_parser: false,
        used_text_fallback: false,
    }
}

/// What is known once these files were looked at.
pub open spec fn symbol_state(
    diff: DiffLists,
    files: Seq<Seq<char>>,
    sources: Seq<Option<Seq<char>>>,
) -> SymbolState
    decreases files.len(),
{
    if files.len() == 0 {
        no_symbols()
    } else {
        with_file(
            symbol_state(diff, files.drop_last(), sources.drop_last()),
            diff,
            files.last(),
            sources.last(),
        )
    }
}

/// The identifiers to search for: those of parsed files first, each once, and no more
/// than fit.
pub open spec fn chosen_symbols(s: SymbolState) -> Seq<Seq<char>> {
    first_n(
        distinct(
            first_n(distinct(s.structured), MAX_CHANGED_SYMBOLS as nat) + distinct(s.fallback),
        ),
        MAX_CHANGED_SYMBOLS as nat,
    )
}

/// The identifiers to search for are different, and no more than fit.
pub proof fn law_chosen_symbols(s: SymbolState)
    ensures
        chosen_symbols(s).no_duplicates(),
        chosen_symbols(s).len() <= MAX_CHANGED_SYMBOLS,
        forall|t: Seq<char>|
            chosen_symbols(s).contains(t) ==> s.structured.contains(t) || s.fallback.contains(t),
{
    let first = first_n(distinct(s.structured), MAX_CHANGED_SYMBOLS as nat);
    let both = first + distinct(s.fallback);
    law_distinct(both);
    law_distinct(s.structured);
    law_distinct(s.fallback);
    let all = distinct(both);
    assert forall|t: Seq<char>| chosen_symbols(s).contains(t) implies s.structured.contains(t)
        || s.fallback.contains(t) by {
        let k = choose|k: int| 0 <= k < chosen_symbols(s).len() && chosen_symbols(s)[k] == t;
        assert(all[k] == t);
        assert(all.contains(t));
        assert(both.contains(t));
        let j = choose|j: int| 0 <= j < both.len() && both[j] == t;
        if j < first.len() {
            assert(distinct(s.structured)[j] == t);
            assert(distinct(s.structured).contains(t) && s.structured.contains(t));
        } else {
            assert(distinct(s.fallback)[j - first.len()] == t);
            assert(distinct(s.fallback).contains(t) && s.fallback.contains(t));
        }
    }
}

/// The identifiers of a change.
#[derive(Debug, PartialEq, Eq)]
pub struct ChangedSymbols {
    pub symbols: Vec<String>,
    pub origins: Vec<(String, String)>,
    pub used_rust_parser: bool,
    pub used_text_fallback: bool,
}

/// The views of optional strings.
pub open spec fn opt_views(s: Seq<Option<String>>) -> Seq<Option<Seq<char>>> {
    s.map_values(|t: Option<String>| opt_view(t))
}

/// The identifiers of a change. `sources` holds for each changed file its text, or
/// none where it cannot be read.
pub fn collect_changed_symbols(
    changed_files: &Vec<String>,
    parsed: &ParsedDiffLines,
    sources: &Vec<Option<String>>,
) -> (r: ChangedSymbols)
    requires
        changed_files@.len() == sources@.len(),
    ensures
        ({
            let s = symbol_state(parsed@, views(changed_files@), opt_views(sources@));
            &&& views(r.symbols@) == chosen_symbols(s)
            &&& origin_views(r.origins@) == s.origins
            &&& r.used_rust_parser == s.used_rust_parser
            &&& r.used_text_fallback == s.used_text_fallback
        }),
{
    let ghost files = views(changed_files@);
    let ghost texts = opt_views(sources@);
    let mut structured: Vec<String> = Vec::new();
    let mut fallback: Vec<String> = Vec::new();
    let mut origins: Vec<(String, String)> = Vec::new();
    let mut used_rust_parser = false;
    let mut used_text_fallback = false;
    let mut i: usize = 0;
    proof {
        assert(views(structured@) =~= Seq::empty());
        assert(views(fallback@) =~= Seq::empty());
        assert(origin_views(origins@) =~= Seq::empty());
    }
    while i < changed_files.len()
        invariant
            i <= changed_files@.len(),
            changed_files@.len() == sources@.len(),
            files == views(changed_files@),
            texts == opt_views(sources@),
            ({
                let s = symbol_state(parsed@, files.take(i as int), texts.take(i as int));
                &&& views(structured@) == s.structured
                &&& views(fallback@) == s.fallback
                &&& origin_views(origins@) == s.origins
                &&& used_rust_parser == s.used_rust_parser
                &&& used_text_fallback == s.used_text_fallback
            }),
        decreases changed_files@.len() - i,
    {
        let relative = changed_files[i].as_str();
        proof {
            assert(files.take(i + 1).drop_last() =~= files.take(i as int));
            assert(files.take(i + 1).last() == relative@);
            assert(texts.take(i + 1).drop_last() =~= texts.take(i as int));
            assert(texts.take(i + 1).last() == opt_view(sources@[i as int]));
        }
        let deleted = parsed.deleted_in(relative);
        if deleted.len() > 0 {
            let found = extract_deleted_symbols(relative, &deleted);
            if found.len() > 0 {
                used_text_fallback = true;
                record_symbols(&mut fallback, &mut origins, relative, found);
            }
        }
        let added = parsed.added_in(relative);
        let anchors = parsed.anchors_in(relative);
        if let Some(source) = &sources[i] {
            if added.len() > 0 || anchors.len() > 0 {
                let kept = fit(source.as_str(), MAX_SEMANTIC_FILE_BYTES);
                let mut parsed_it = false;
                if ends_with(relative, ".rs") {
                    let lines = numbers_of(&added, &anchors);
                    let found = extract_rust_changed_symbols(kept.as_str(), &lines);
                    if found.len() > 0 {
                        parsed_it = true;
                        used_rust_parser = true;
                        record_symbols(&mut structured, &mut origins, relative, found);
                    }
                }
                if !parsed_it {
                    used_text_fallback = true;
                    let found = extract_text_changed_symbols(&added);
                    record_symbols(&mut fallback, &mut origins, relative, found);
                }
            }
        }
        i += 1;
    }
    proof {
        assert(files.take(files.len() as int) =~= files);
        assert(texts.take(texts.len() as int) =~= texts);
    }
    deduplicate_preserving_order(&mut structured);
    deduplicate_preserving_order(&mut fallback);
    if structured.len() > MAX_CHANGED_SYMBOLS {
        let ghost before = structured@;
        structured.truncate(MAX_CHANGED_SYMBOLS);
        proof {
            assert(views(structured@) =~= views(before).take(MAX_CHANGED_SYMBOLS as int));
        }
    }
    let ghost a = views(structured@);
    let ghost b = views(fallback@);
    let mut symbols = structured;
    let mut rest = fallback;
    symbols.append(&mut rest);
    proof {
        assert(views(symbols@) =~= a + b);
    }
    deduplicate_preserving_order(&mut symbols);
    if symbols.len() > MAX_CHANGED_SYMBOLS {
        let ghost before = symbols@;
        symbols.truncate(MAX_CHANGED_SYMBOLS);
        proof {
            assert(views(symbols@) =~= views(before).take(MAX_CHANGED_SYMBOLS as int));
        }
    }
    ChangedSymbols { symbols, origins, used_rust_parser, used_text_fallback }
}

fn numbers_of(lines: &Vec<AddedLine>, anchors: &Vec<usize>) -> (r: Vec<usize>)
    ensures
        r@ == line_numbers(line_views(lines@)) + anchors@,
{
    let mut r: Vec<usize> = Vec::new();
    let mut i: usize = 0;
    while i < lines.len()
        invariant
            i <= lines@.len(),
            r@ == line_numbers(line_views(lines@)).take(i as int),
        decreases lines@.len() - i,
    {
        r.push(lines[i].line);
        proof {
            assert(line_numbers(line_views(lines@)).take(i + 1) =~= line_numbers(
                line_views(lines@),
            ).take(i as int).push(lines@[i as int].line));
        }
        i += 1;
    }
    proof {
        assert(r@ =~= line_numbers(line_views(lines@)));
    }
    let mut j: usize = 0;
    while j < anchors.len()
        invariant
            j <= anchors@.len(),
            r@ == line_numbers(line_views(lines@)) + anchors@.take(j as int),
        decreases anchors@.len() - j,
    {
        r.push(anchors[j]);
        proof {
            assert(anchors@.take(j + 1) =~= anchors@.take(j as int).push(anchors@[j as int]));
        }
        j += 1;
    }
    proof {
        assert(anchors@.take(anchors@.len() as int) =~= anchors@);
    }
    r
}

// ---------------------------------------------------------------------------
// What holds of it
// ---------------------------------------------------------------------------

proof fn lemma_prefix_state(
    diff: DiffLists,
    files: Seq<Seq<char>>,
    sources: Seq<Option<Seq<char>>>,
    n: int,
)
    requires
        files.len() == sources.len(),
        0 <= n <= files.len(),
    ensures
        ({
            let a = symbol_state(diff, files.take(n), sources.take(n));
            let b = symbol_state(diff, files, sources);
            &&& a.fallback.is_prefix_of(b.fallback)
            &&& a.structured.is_prefix_of(b.structured)
            &&& a.origins.is_prefix_of(b.origins)
            &&& a.used_rust_parser ==> b.used_rust_parser
            &&& a.used_text_fallback ==> b.used_text_fallback
        }),
    decreases files.len() - n,
{
    if n == files.len() {
        assert(files.take(n) =~= files);
        assert(sources.take(n) =~= sources);
    } else {
        lemma_prefix_state(diff, files, sources, n + 1);
        let a = symbol_state(diff, files.take(n), sources.take(n));
        let m = symbol_state(diff, files.take(n + 1), sources.take(n + 1));
        let b = symbol_state(diff, files, sources);
        assert(files.take(n + 1).drop_last() =~= files.take(n));
        assert(sources.take(n + 1).drop_last() =~= sources.take(n));
        lemma_prefixes(a.fallback, m.fallback, b.fallback);
        lemma_prefixes(a.structured, m.structured, b.structured);
        lemma_prefixes(a.origins, m.origins, b.origins);
    }
}

proof fn lemma_prefixes<A>(a: Seq<A>, m: Seq<A>, b: Seq<A>)
    requires
        m.is_prefix_of(b),
        a.len() <= m.len(),
        forall|i: int| 0 <= i < a.len() ==> #[trigger] a[i] == m[i],
    ensures
        a.is_prefix_of(b),
{
    assert forall|i: int| 0 <= i < a.len() implies a[i] == #[trigger] b.take(a.len() as int)[i] by {
        assert(b.take(m.len() as int)[i] == m[i]);
    }
    assert(b.take(a.len() as int) =~= a);
}

proof fn lemma_kept_in<A>(a: Seq<A>, b: Seq<A>, x: A)
    requires
        a.is_prefix_of(b),
        a.contains(x),
    ensures
        b.contains(x),
{
    let i = choose|i: int| 0 <= i < a.len() && a[i] == x;
    assert(b.take(a.len() as int)[i] == b[i]);
    assert(b[i] == x);
}

proof fn lemma_added_at_the_end<A>(a: Seq<A>, b: Seq<A>, x: A)
    requires
        b.contains(x),
    ensures
        (a + b).contains(x),
{
    let i = choose|i: int| 0 <= i < b.len() && b[i] == x;
    assert((a + b)[a.len() + i] == x);
}

/// The identifiers of the lines that a change adds to a file are recorded with the file,
/// and the text is known to have been read for them, unless the file is Rust and its
/// syntax offered definitions.
pub proof fn law_added_text_is_recorded(
    diff: DiffLists,
    files: Seq<Seq<char>>,
    sources: Seq<Option<Seq<char>>>,
    i: int,
    symbol: Seq<char>,
)
    requires
        files.len() == sources.len(),
        0 <= i < files.len(),
        sources[i] is Some,
        lines_in(diff.added, files[i]).len() > 0,
        !".rs"@.is_suffix_of(files[i]) || tree_symbols(
            rust_syntax(fitting(sources[i]->0, 262144)),
            line_numbers(lines_in(diff.added, files[i])) + anchors_of(diff.anchors, files[i]),
        ).len() == 0,
        text_symbols(lines_in(diff.added, files[i])).contains(symbol),
    ensures
        symbol_state(diff, files, sources).fallback.contains(symbol),
        symbol_state(diff, files, sources).origins.contains((symbol, files[i])),
        symbol_state(diff, files, sources).used_text_fallback,
{
    let path = files[i];
    let found = text_symbols(lines_in(diff.added, path));
    let a = symbol_state(diff, files.take(i), sources.take(i));
    let m = symbol_state(diff, files.take(i + 1), sources.take(i + 1));
    assert(files.take(i + 1).drop_last() =~= files.take(i));
    assert(sources.take(i + 1).drop_last() =~= sources.take(i));
    let d = with_deleted(a, path, lines_in(diff.deleted, path));
    assert(m == with_fallback(d, path, found));
    lemma_added_at_the_end(d.fallback, found, symbol);
    lemma_recorded_for(found, path, symbol);
    lemma_added_at_the_end(d.origins, from_file(found, path), (symbol, path));
    lemma_prefix_state(diff, files, sources, i + 1);
    let b = symbol_state(diff, files, sources);
    lemma_kept_in(m.fallback, b.fallback, symbol);
    lemma_kept_in(m.origins, b.origins, (symbol, path));
}

proof fn lemma_recorded_for(symbols: Seq<Seq<char>>, path: Seq<char>, symbol: Seq<char>)
    requires
        symbols.contains(symbol),
    ensures
        from_file(symbols, path).contains((symbol, path)),
{
    let k = choose|k: int| 0 <= k < symbols.len() && symbols[k] == symbol;
    assert(from_file(symbols, path)[k] == (symbol, path));
}

/// A file that can be read and that is not Rust is read as text wherever lines are added
/// to it or removed from it.
pub proof fn law_other_files_are_read_as_text(
    diff: DiffLists,
    files: Seq<Seq<char>>,
    sources: Seq<Option<Seq<char>>>,
    i: int,
)
    requires
        files.len() == sources.len(),
        0 <= i < files.len(),
        sources[i] is Some,
        !".rs"@.is_suffix_of(files[i]),
        lines_in(diff.added, files[i]).len() > 0 || anchors_of(diff.anchors, files[i]).len() > 0,
    ensures
        symbol_state(diff, files, sources).used_text_fallback,
{
    assert(files.take(i + 1).drop_last() =~= files.take(i));
    assert(sources.take(i + 1).drop_last() =~= sources.take(i));
    lemma_prefix_state(diff, files, sources, i + 1);
}

/// The definitions that the syntax of a Rust file offers for the lines that changed are
/// recorded with the file, and the parser is known to have been used.
pub proof fn law_changed_definitions_are_recorded(
    diff: DiffLists,
    files: Seq<Seq<char>>,
    sources: Seq<Option<Seq<char>>>,
    i: int,
    symbol: Seq<char>,
)
    requires
        files.len() == sources.len(),
        0 <= i < files.len(),
        sources[i] is Some,
        ".rs"@.is_suffix_of(files[i]),
        lines_in(diff.added, files[i]).len() > 0 || anchors_of(diff.anchors, files[i]).len() > 0,
        tree_symbols(
            rust_syntax(fitting(sources[i]->0, 262144)),
            line_numbers(lines_in(diff.added, files[i])) + anchors_of(diff.anchors, files[i]),
        ).contains(symbol),
    ensures
        symbol_state(diff, files, sources).structured.contains(symbol),
        symbol_state(diff, files, sources).origins.contains((symbol, files[i])),
        symbol_state(diff, files, sources).used_rust_parser,
{
    let path = files[i];
    let found = tree_symbols(
        rust_syntax(fitting(sources[i]->0, 262144)),
        line_numbers(lines_in(diff.added, path)) + anchors_of(diff.anchors, path),
    );
    let a = symbol_state(diff, files.take(i), sources.take(i));
    let m = symbol_state(diff, files.take(i + 1), sources.take(i + 1));
    assert(files.take(i + 1).drop_last() =~= files.take(i));
    assert(sources.take(i + 1).drop_last() =~= sources.take(i));
    let d = with_deleted(a, path, lines_in(diff.deleted, path));
    assert(m.structured == d.structured + found);
    lemma_added_at_the_end(d.structured, found, symbol);
    lemma_recorded_for(found, path, symbol);
    lemma_added_at_the_end(d.origins, from_file(found, path), (symbol, path));
    lemma_prefix_state(diff, files, sources, i + 1);
    let b = symbol_state(diff, files, sources);
    lemma_kept_in(m.structured, b.structured, symbol);
    lemma_kept_in(m.origins, b.origins, (symbol, path));
}

/// What removed lines offer is recorded with the file, whether the file can still be read
/// or not.
pub proof fn law_removed_text_is_recorded(
    diff: DiffLists,
    files: Seq<Seq<char>>,
    sources: Seq<Option<Seq<char>>>,
    i: int,
    symbol: Seq<char>,
)
    requires
        files.len() == sources.len(),
        0 <= i < files.len(),
        lines_in(diff.deleted, files[i]).len() > 0,
        deleted_symbols(files[i], lines_in(diff.deleted, files[i])).contains(symbol),
    ensures
        symbol_state(diff, files, sources).fallback.contains(symbol),
        symbol_state(diff, files, sources).origins.contains((symbol, files[i])),
        symbol_state(diff, files, sources).used_text_fallback,
{
    let path = files[i];
    let found = deleted_symbols(path, lines_in(diff.deleted, path));
    let a = symbol_state(diff, files.take(i), sources.take(i));
    let m = symbol_state(diff, files.take(i + 1), sources.take(i + 1));
    assert(files.take(i + 1).drop_last() =~= files.take(i));
    assert(sources.take(i + 1).drop_last() =~= sources.take(i));
    let d = with_deleted(a, path, lines_in(diff.deleted, path));
    assert(d == with_fallback(a, path, found));
    lemma_added_at_the_end(a.fallback, found, symbol);
    lemma_recorded_for(found, path, symbol);
    lemma_added_at_the_end(a.origins, from_file(found, path), (symbol, path));
    assert(d.fallback.is_prefix_of(m.fallback)) by {
        assert(m.fallback.take(d.fallback.len() as int) =~= d.fallback);
    }
    assert(d.origins.is_prefix_of(m.origins)) by {
        assert(m.origins.take(d.origins.len() as int) =~= d.origins);
    }
    lemma_kept_in(d.fallback, m.fallback, symbol);
    lemma_kept_in(d.origins, m.origins, (symbol, path));
    lemma_prefix_state(diff, files, sources, i + 1);
    let b = symbol_state(diff, files, sources);
    lemma_kept_in(m.fallback, b.fallback, symbol);
    lemma_kept_in(m.origins, b.origins, (symbol, path));
}

/// Only what a changed file offers is recorded, with that file: what its added lines or its
/// removed lines say, or what its syntax defines on the lines that changed.
pub proof fn law_recorded_symbols_are_of_the_change(
    diff: DiffLists,
    files: Seq<Seq<char>>,
    sources: Seq<Option<Seq<char>>>,
    k: int,
)
    requires
        files.len() == sources.len(),
        0 <= k < symbol_state(diff, files, sources).origins.len(),
    ensures
        ({
            let (symbol, path) = symbol_state(diff, files, sources).origins[k];
            exists|i: int|
                0 <= i < files.len() && #[trigger] files[i] == path && (deleted_symbols(
                    path,
                    lines_in(diff.deleted, path),
                ).contains(symbol) || text_symbols(lines_in(diff.added, path)).contains(symbol) || (
                ".rs"@.is_suffix_of(path) && sources[i] is Some && tree_symbols(
                    rust_syntax(fitting(sources[i]->0, 262144)),
                    line_numbers(lines_in(diff.added, path)) + anchors_of(diff.anchors, path),
                ).contains(symbol)))
        }),
    decreases files.len(),
{
    if files.len() > 0 {
        let n = files.len() - 1;
        let rest = symbol_state(diff, files.drop_last(), sources.drop_last());
        let all = symbol_state(diff, files, sources);
        let path = files.last();
        let d = with_deleted(rest, path, lines_in(diff.deleted, path));
        let (symbol, from) = all.origins[k];
        if k < rest.origins.len() {
            law_recorded_symbols_are_of_the_change(diff, files.drop_last(), sources.drop_last(), k);
            assert(d.origins[k] == rest.origins[k]);
            assert(all.origins[k] == rest.origins[k]);
            let i = choose|i: int|
                0 <= i < files.drop_last().len() && #[trigger] files.drop_last()[i] == from && (
                deleted_symbols(from, lines_in(diff.deleted, from)).contains(symbol)
                    || text_symbols(lines_in(diff.added, from)).contains(symbol) || (
                ".rs"@.is_suffix_of(from) && sources.drop_last()[i] is Some && tree_symbols(
                    rust_syntax(fitting(sources.drop_last()[i]->0, 262144)),
                    line_numbers(lines_in(diff.added, from)) + anchors_of(diff.anchors, from),
                ).contains(symbol)));
            assert(files[i] == from);
            assert(sources[i] == sources.drop_last()[i]);
        } else {
            assert(files[n] == path);
            if k < d.origins.len() {
                let found = deleted_symbols(path, lines_in(diff.deleted, path));
                assert(all.origins[k] == d.origins[k]);
                assert(d.origins[k] == from_file(found, path)[k - rest.origins.len()]);
                assert(found[k - rest.origins.len()] == symbol);
            } else {
                let text = text_symbols(lines_in(diff.added, path));
                if sources.last() is Some {
                    let tree = tree_symbols(
                        rust_syntax(fitting(sources.last()->0, 262144)),
                        line_numbers(lines_in(diff.added, path)) + anchors_of(diff.anchors, path),
                    );
                    if ".rs"@.is_suffix_of(path) && tree.len() > 0 {
                        assert(all.origins[k] == from_file(tree, path)[k - d.origins.len()]);
                        assert(tree[k - d.origins.len()] == symbol);
                    } else {
                        assert(all.origins[k] == from_file(text, path)[k - d.origins.len()]);
                        assert(text[k - d.origins.len()] == symbol);
                    }
                }
            }
        }
    }
}

/// Every identifier that was recorded is searched for, as long as all of them fit under
/// the limit.
pub proof fn law_recorded_symbols_are_searched_for(s: SymbolState, symbol: Seq<char>)
    requires
        distinct(s.structured).len() + distinct(s.fallback).len() <= 24,
    ensures
        chosen_symbols(s).contains(symbol) <==> s.structured.contains(symbol)
            || s.fallback.contains(symbol),
{
    let first = distinct(s.structured);
    let both = first + distinct(s.fallback);
    law_distinct(s.structured);
    law_distinct(s.fallback);
    law_distinct(both);
    assert(first_n(first, 24) == first);
    assert(chosen_symbols(s) == distinct(both));
    if s.structured.contains(symbol) {
        assert(first.contains(symbol));
        let k = choose|k: int| 0 <= k < first.len() && first[k] == symbol;
        assert(both[k] == symbol);
        assert(both.contains(symbol));
    }
    if s.fallback.contains(symbol) {
        assert(distinct(s.fallback).contains(symbol));
        lemma_added_at_the_end(first, distinct(s.fallback), symbol);
    }
    law_chosen_symbols(s);
}

/// Identifiers that syntax offers come first, in the order in which they were recorded: an
/// identifier of plain text is searched for only once all of them, or as many as fit, are.
pub proof fn law_definitions_are_searched_for_first(s: SymbolState)
    ensures
        ({
            let first = distinct(s.structured);
            let n = if first.len() <= 24 {
                first.len() as int
            } else {
                24
            };
            &&& n <= chosen_symbols(s).len() <= 24
            &&& forall|k: int| 0 <= k < n ==> #[trigger] chosen_symbols(s)[k] == first[k]
        }),
{
    let once = distinct(s.structured);
    let first = first_n(once, MAX_CHANGED_SYMBOLS as nat);
    let rest = distinct(s.fallback);
    law_distinct(s.structured);
    law_chosen_symbols(s);
    assert(first.no_duplicates());
    crate::list::law_distinct_again(first);
    lemma_distinct_keeps_beginning(first, rest);
    let all = distinct(first + rest);
    assert(first.is_prefix_of(all));
    let chosen = chosen_symbols(s);
    assert(chosen == first_n(all, 24));
    assert forall|k: int| 0 <= k < first.len() implies #[trigger] chosen[k] == once[k] by {
        assert(all.take(first.len() as int)[k] == all[k]);
        assert(first[k] == once[k]);
        assert(chosen[k] == all[k]);
    }
}

proof fn lemma_distinct_keeps_beginning<A>(a: Seq<A>, b: Seq<A>)
    requires
        distinct(a) == a,
    ensures
        a.is_prefix_of(distinct(a + b)),
    decreases b.len(),
{
    if b.len() == 0 {
        assert(a + b =~= a);
        assert(a.take(a.len() as int) =~= a);
    } else {
        assert((a + b).drop_last() =~= a + b.drop_last());
        lemma_distinct_keeps_beginning(a, b.drop_last());
        let rest = distinct(a + b.drop_last());
        let all = distinct(a + b);
        assert(all.take(a.len() as int) =~= rest.take(a.len() as int));
    }
}

/// The file of an identifier is the one that was recorded first for it.
pub proof fn law_origins_are_recorded_first(origins: Seq<Origin>, symbol: Seq<char>)
    ensures
        origin_of(origins, symbol) matches Some(path) ==> exists|i: int|
            0 <= i < origins.len() && #[trigger] origins[i] == (symbol, path) && forall|j: int|
                0 <= j < i ==> (#[trigger] origins[j]).0 != symbol,
        origin_of(origins, symbol) is None ==> forall|j: int|
            0 <= j < origins.len() ==> (#[trigger] origins[j]).0 != symbol,
    decreases origins.len(),
{
    if origins.len() > 0 {
        let rest = origins.drop_last();
        law_origins_are_recorded_first(rest, symbol);
        if let Some(path) = origin_of(rest, symbol) {
            let i = choose|i: int|
                0 <= i < rest.len() && #[trigger] rest[i] == (symbol, path) && forall|j: int|
                    0 <= j < i ==> (#[trigger] rest[j]).0 != symbol;
            assert(origins[i] == (symbol, path));
            assert forall|j: int| 0 <= j < i implies (#[trigger] origins[j]).0 != symbol by {
                assert(rest[j] == origins[j]);
            }
        } else {
            assert forall|j: int| 0 <= j < rest.len() implies (#[trigger] origins[j]).0
                != symbol by {
                assert(rest[j] == origins[j]);
            }
            assert(origins[origins.len() - 1] == origins.last());
        }
    }
}

/// A change that touches no file offers nothing to search for.
pub proof fn law_no_files_no_symbols(diff: DiffLists)
    ensures
        chosen_symbols(symbol_state(diff, Seq::empty(), Seq::empty())).len() == 0,
        symbol_state(diff, Seq::empty(), Seq::empty()).origins.len() == 0,
        !symbol_state(diff, Seq::empty(), Seq::empty()).used_rust_parser,
        !symbol_state(diff, Seq::empty(), Seq::empty()).used_text_fallback,
{
    let s = symbol_state(diff, Seq::empty(), Seq::empty());
    law_distinct(s.structured);
    law_distinct(s.fallback);
    assert(distinct(s.structured) + distinct(s.fallback) =~= Seq::empty());
}

} // verus!
