//! Benchmarks: what they read, what they run and how they are reported.
use vstd::prelude::*;

use crate::aggregate::{ReviewAngleResult, ReviewArtifact, ReviewCost};
use crate::aggregate::{AngleResultView, ArtifactView};
use crate::benchmark::{observed_views, BenchmarkObservedFinding};
use crate::findings::{
    compute_score, finding_views, score_of, status_for_score, status_of_score, Finding, FindingView,
    GroundingView, DEFAULT_TARGET_SCORE,
};
use crate::json::{json_document, json_view, parse_json, Json, JsonView};
use crate::number::{decimal, decimal_of};
use crate::order::{ordered_set, sort_unique};
use crate::paths::{absolute, file_name, file_name_of, is_absolute, safe_relative, safe_relative_path};
use crate::reading::result_view;
use crate::split::{blank, is_blank, lines, lines_of, split, split_at_char};
use crate::status::ReviewStatus;
use crate::text::{
    ascii_alphanumeric, chars_of, concat2, concat3, ends_with, is_ascii_alphanumeric, join, joined,
    opt_view, same_text, starts_with, text_of, views,
};

verus! {

/// How many requests a live benchmark may make.
pub const MAX_LIVE_BENCHMARK_REQUESTS: usize = 100;

/// How a benchmark is run.
#[derive(Debug, PartialEq, Eq)]
pub struct EvalReplayOptions {
    pub repo: String,
    pub manifest: String,
    pub json_out: Option<String>,
    pub markdown_out: Option<String>,
    pub live: bool,
    pub model: Option<String>,
    pub openrouter_base_url: Option<String>,
    pub max_cases: Option<usize>,
}

// ---------------------------------------------------------------------------
// What is run
// ---------------------------------------------------------------------------

/// How many cases of a source are run, and whether no further source is read.
pub open spec fn case_quota(max_cases: Option<usize>, loaded: nat, available: nat) -> (nat, bool) {
    match max_cases {
        None => (available, false),
        Some(max) => {
            let left = if loaded < max {
                (max - loaded) as nat
            } else {
                0
            };
            let taken = if available < left {
                available
            } else {
                left
            };
            (taken, loaded + taken >= max)
        },
    }
}

/// How many cases of a source are run, and whether no further source is read.
pub fn cases_to_run(max_cases: Option<usize>, loaded: usize, available: usize) -> (r: (usize, bool))
    ensures
        (r.0 as nat, r.1) == case_quota(max_cases, loaded as nat, available as nat),
{
    match max_cases {
        None => (available, false),
        Some(max) => {
            if loaded >= max {
                return (0, true);
            }
            let left: usize = max - loaded;
            if available < left {
                (available, false)
            } else {
                (left, true)
            }
        },
    }
}

/// Where there is a limit, no more cases are run than it allows, and reading stops when
/// it is reached.
pub proof fn law_case_limits_hold(max: usize, loaded: nat, available: nat)
    requires
        loaded <= max,
    ensures
        loaded + case_quota(Some(max), loaded, available).0 <= max,
        case_quota(Some(max), loaded, available).0 <= available,
        case_quota(Some(max), loaded, available).1 <==> loaded + case_quota(
            Some(max),
            loaded,
            available,
        ).0 == max,
{
}

/// What is wrong with the number of requests, if anything.
pub open spec fn request_count_error(cases: nat, repetitions: nat) -> Result<(), Seq<char>> {
    if cases * repetitions > usize::MAX {
        Err("live benchmark request count overflowed"@)
    } else if cases * repetitions > MAX_LIVE_BENCHMARK_REQUESTS {
        Err(
            "live benchmark requires "@ + decimal_of(cases * repetitions)
                + " model requests; maximum is 100. Use --max-cases or lower repetitions"@,
        )
    } else {
        Ok(())
    }
}

/// Whether a live benchmark stays within its number of requests.
pub fn validate_live_request_count(case_count: usize, repetitions: usize) -> (r: Result<(), String>)
    ensures
        crate::disposition::unit_result(r) == request_count_error(
            case_count as nat,
            repetitions as nat,
        ),
{
    match case_count.checked_mul(repetitions) {
        None => Err("live benchmark request count overflowed".to_owned()),
        Some(count) => {
            if count > MAX_LIVE_BENCHMARK_REQUESTS {
                let n = decimal(count as u64);
                Err(
                    concat3(
                        "live benchmark requires ",
                        n.as_str(),
                        " model requests; maximum is 100. Use --max-cases or lower repetitions",
                    ),
                )
            } else {
                Ok(())
            }
        },
    }
}

/// The key for a live benchmark, if it is more than blank; `name` is where it is looked
/// for.
pub fn require_live_api_key(value: Option<String>, name: &str) -> (r: Result<String, String>)
    ensures
        result_view(r) == match opt_view(value) {
            Some(key) if !blank(key) => Ok(key),
            _ => Err(name@ + " is required for explicit live benchmark mode"@),
        },
{
    match value {
        Some(key) => {
            if !is_blank(key.as_str()) {
                return Ok(key);
            }
        },
        None => {},
    }
    Err(concat2(name, " is required for explicit live benchmark mode"))
}

// ---------------------------------------------------------------------------
// Inputs
// ---------------------------------------------------------------------------

/// A part of a path that stands for something.
pub open spec fn names_something(part: Seq<char>) -> bool {
    part.len() > 0 && part != "."@
}

fn is_named(part: &str) -> (r: bool)
    ensures
        r == names_something(part@),
{
    proof {
        reveal_strlit("");
        assert(part@.len() == 0 ==> part@ =~= ""@);
    }
    !same_text(part, "") && !same_text(part, ".")
}

/// What follows in a path behind a base that it begins with.
pub open spec fn behind(parts: Seq<Seq<char>>, base: Seq<Seq<char>>) -> Option<Seq<Seq<char>>>
    decreases parts.len() + base.len(),
{
    if base.len() == 0 {
        Some(parts)
    } else if !names_something(base[0]) {
        behind(parts, base.skip(1))
    } else if parts.len() == 0 {
        None
    } else if !names_something(parts[0]) {
        behind(parts.skip(1), base)
    } else if parts[0] == base[0] {
        behind(parts.skip(1), base.skip(1))
    } else {
        None
    }
}

/// The parts without those at the start that stand for nothing.
pub open spec fn from_first_name(parts: Seq<Seq<char>>) -> Seq<Seq<char>>
    decreases parts.len(),
{
    if parts.len() > 0 && !names_something(parts[0]) {
        from_first_name(parts.skip(1))
    } else {
        parts
    }
}

/// The parts without those at the end that stand for nothing.
pub open spec fn upto_last_name(parts: Seq<Seq<char>>) -> Seq<Seq<char>>
    decreases parts.len(),
{
    if parts.len() > 0 && !names_something(parts.last()) {
        upto_last_name(parts.drop_last())
    } else {
        parts
    }
}

/// The path within a base, if it begins with it.
pub open spec fn within(base: Seq<char>, path: Seq<char>) -> Option<Seq<char>> {
    match behind(split_at_char(path, '/'), split_at_char(base, '/')) {
        Some(parts) => Some(joined(upto_last_name(from_first_name(parts)), "/"@)),
        None => None,
    }
}

fn part_behind(parts: &Vec<String>, base: &Vec<String>) -> (r: Option<usize>)
    ensures
        match r {
            Some(n) => n <= parts@.len() && behind(views(parts@), views(base@)) == Some(
                views(parts@).skip(n as int),
            ),
            None => behind(views(parts@), views(base@)) is None,
        },
{
    let ghost ps = views(parts@);
    let ghost bs = views(base@);
    let mut i: usize = 0;
    let mut j: usize = 0;
    proof {
        assert(ps.skip(0) =~= ps);
        assert(bs.skip(0) =~= bs);
    }
    while j < base.len()
        invariant
            i <= parts@.len(),
            j <= base@.len(),
            ps == views(parts@),
            bs == views(base@),
            behind(ps, bs) == behind(ps.skip(i as int), bs.skip(j as int)),
        decreases parts@.len() - i + base@.len() - j,
    {
        proof {
            assert(bs.skip(j as int)[0] == base@[j as int]@);
            assert(bs.skip(j as int).skip(1) =~= bs.skip(j + 1));
        }
        if !is_named(base[j].as_str()) {
            j += 1;
            continue;
        }
        if i >= parts.len() {
            return None;
        }
        proof {
            assert(ps.skip(i as int)[0] == parts@[i as int]@);
            assert(ps.skip(i as int).skip(1) =~= ps.skip(i + 1));
        }
        if !is_named(parts[i].as_str()) {
            i += 1;
            continue;
        }
        if !same_text(parts[i].as_str(), base[j].as_str()) {
            return None;
        }
        i += 1;
        j += 1;
    }
    proof {
        assert(bs.skip(j as int) =~= Seq::empty());
    }
    Some(i)
}

fn first_name(parts: &Vec<String>, from: usize) -> (r: usize)
    requires
        from <= parts@.len(),
    ensures
        from <= r <= parts@.len(),
        from_first_name(views(parts@).skip(from as int)) == views(parts@).skip(r as int),
{
    let ghost ps = views(parts@);
    let mut i: usize = from;
    while i < parts.len() && !is_named(parts[i].as_str())
        invariant
            from <= i <= parts@.len(),
            ps == views(parts@),
            from_first_name(ps.skip(from as int)) == from_first_name(ps.skip(i as int)),
        decreases parts@.len() - i,
    {
        proof {
            assert(ps.skip(i as int)[0] == parts@[i as int]@);
            assert(ps.skip(i as int).skip(1) =~= ps.skip(i + 1));
        }
        i += 1;
    }
    proof {
        if i < parts@.len() {
            assert(ps.skip(i as int)[0] == parts@[i as int]@);
        }
    }
    i
}

fn named_parts(parts: &Vec<String>, from: usize) -> (r: Vec<String>)
    requires
        from <= parts@.len(),
    ensures
        views(r@) == upto_last_name(views(parts@).skip(from as int)),
{
    let ghost ps = views(parts@);
    let mut to: usize = parts.len();
    proof {
        assert(ps.subrange(from as int, to as int) =~= ps.skip(from as int));
    }
    while to > from && !is_named(parts[to - 1].as_str())
        invariant
            from <= to <= parts@.len(),
            ps == views(parts@),
            upto_last_name(ps.skip(from as int)) == upto_last_name(
                ps.subrange(from as int, to as int),
            ),
        decreases to - from,
    {
        proof {
            let s = ps.subrange(from as int, to as int);
            assert(s.last() == parts@[to - 1]@);
            assert(s.drop_last() =~= ps.subrange(from as int, to - 1));
        }
        to -= 1;
    }
    let ghost s = ps.subrange(from as int, to as int);
    proof {
        if to > from {
            assert(s.last() == parts@[to - 1]@);
        }
    }
    let mut r: Vec<String> = Vec::new();
    let mut i: usize = from;
    while i < to
        invariant
            from <= i <= to <= parts@.len(),
            r@.len() == i - from,
            forall|k: int| 0 <= k < i - from ==> (#[trigger] r@[k])@ == parts@[from + k]@,
        decreases to - i,
    {
        r.push(parts[i].clone());
        i += 1;
    }
    proof {
        assert(views(r@) =~= s);
    }
    r
}

/// The path within a base, if it begins with it.
pub fn path_within(base: &str, path: &str) -> (r: Option<String>)
    ensures
        opt_view(r) == within(base@, path@),
{
    let parts = split(path, '/');
    let bases = split(base, '/');
    match part_behind(&parts, &bases) {
        Some(from) => {
            let from: usize = first_name(&parts, from);
            let kept = named_parts(&parts, from);
            Some(join(&kept, "/"))
        },
        None => None,
    }
}

/// A text with slashes for its backslashes.
pub open spec fn with_slashes(s: Seq<char>) -> Seq<char> {
    s.map_values(
        |c: char|
            if c == '\\' {
                '/'
            } else {
                c
            },
    )
}

fn slashes(s: &str) -> (r: String)
    ensures
        r@ == with_slashes(s@),
{
    let v = chars_of(s);
    let mut out: Vec<char> = Vec::new();
    let mut i: usize = 0;
    while i < v.len()
        invariant
            i <= v@.len(),
            out@.len() == i,
            forall|k: int|
                0 <= k < i ==> #[trigger] out@[k] == if v@[k] == '\\' {
                    '/'
                } else {
                    v@[k]
                },
        decreases v@.len() - i,
    {
        if v[i] == '\\' {
            out.push('/');
        } else {
            out.push(v[i]);
        }
        i += 1;
    }
    let r = text_of(&out, 0, out.len());
    proof {
        assert(out@.subrange(0, out@.len() as int) =~= out@);
        assert(r@ =~= with_slashes(s@));
    }
    r
}

/// The path within the repository that an input is read from.
pub open spec fn confined_input(repo: Seq<char>, input: Seq<char>, label: Seq<char>) -> Result<
    Seq<char>,
    Seq<char>,
> {
    if absolute(input) {
        match within(repo, input) {
            Some(relative) => Ok(with_slashes(relative)),
            None => Err(label + " "@ + input + " must stay inside "@ + repo),
        }
    } else {
        Ok(with_slashes(input))
    }
}

/// The path within the repository that an input is read from: an absolute one must stay
/// inside it.
pub fn confined_input_path(repo: &str, input: &str, label: &str) -> (r: Result<String, String>)
    ensures
        result_view(r) == confined_input(repo@, input@, label@),
{
    if is_absolute(input) {
        match path_within(repo, input) {
            Some(relative) => Ok(slashes(relative.as_str())),
            None => {
                let head = concat3(label, " ", input);
                Err(concat3(head.as_str(), " must stay inside ", repo))
            },
        }
    } else {
        Ok(slashes(input))
    }
}

/// What is said of an input that is no file of the repository.
pub fn unreadable_input(relative: &str, label: &str) -> (r: String)
    ensures
        r@ == label@ + " `"@ + relative@ + "` must be a regular non-symlink repository file"@,
{
    let head = concat3(label, " `", relative);
    concat2(head.as_str(), "` must be a regular non-symlink repository file")
}

/// The path that a file of a case is written to, if it stays below the case.
pub fn case_file_path(relative: &str) -> (r: Result<String, String>)
    ensures
        result_view(r) == if safe_relative(relative@) {
            Ok(relative@)
        } else {
            Err("benchmark case file `"@ + relative@ + "` must be a safe repo-relative path"@)
        },
{
    match safe_relative_path(relative) {
        Some(path) => Ok(path),
        None => Err(
            concat3("benchmark case file `", relative, "` must be a safe repo-relative path"),
        ),
    }
}

/// How the cases of a source are laid out.
#[derive(Debug, Clone, Copy, PartialEq, Eq, Structural)]
pub struct EvidenceLayout {
    /// The source has a provenance that its cases share.
    pub shared_provenance: bool,
    /// The cases are a field of the source, and not all of it.
    pub listed: bool,
}

/// How the cases of a source are laid out.
pub open spec fn layout_of(source: JsonView) -> Result<EvidenceLayout, Seq<char>> {
    let listed = source.get("cases"@) is Some;
    match source.get("provenance"@) {
        None => Ok(EvidenceLayout { shared_provenance: false, listed }),
        Some(JsonView::Object(_)) => Ok(EvidenceLayout { shared_provenance: true, listed }),
        Some(_) => Err("shared benchmark provenance must be an object"@),
    }
}

/// A layout or what is wrong.
pub open spec fn layout_result(r: Result<EvidenceLayout, String>) -> Result<
    EvidenceLayout,
    Seq<char>,
> {
    match r {
        Ok(layout) => Ok(layout),
        Err(e) => Err(e@),
    }
}

/// How the cases of a source are laid out.
pub fn evidence_layout(source: &Json) -> (r: Result<EvidenceLayout, String>)
    ensures
        layout_result(r) == layout_of(json_view(*source)),
{
    let listed = source.get("cases").is_some();
    match source.get("provenance") {
        None => Ok(EvidenceLayout { shared_provenance: false, listed }),
        Some(Json::Object(_)) => Ok(EvidenceLayout { shared_provenance: true, listed }),
        Some(_) => Err("shared benchmark provenance must be an object".to_owned()),
    }
}

/// How the cases of a source are laid out, from the text of the source.
pub fn parse_evidence_cases(raw: &str) -> (r: Result<EvidenceLayout, String>)
    ensures
        layout_result(r) == match json_document(raw@) {
            Some(source) => layout_of(source),
            None => Err("failed to parse evidence benchmark source"@),
        },
{
    match parse_json(raw) {
        Some(source) => evidence_layout(&source),
        None => Err("failed to parse evidence benchmark source".to_owned()),
    }
}

/// The value of a key, looked for from the end.
pub open spec fn value_of<V>(fields: Seq<(String, V)>, key: Seq<char>) -> Option<V>
    decreases fields.len(),
{
    if fields.len() == 0 {
        None
    } else if fields.last().0@ == key {
        Some(fields.last().1)
    } else {
        value_of(fields.drop_last(), key)
    }
}

proof fn lemma_value_of_concat<V>(a: Seq<(String, V)>, b: Seq<(String, V)>, key: Seq<char>)
    ensures
        value_of(a + b, key) == match value_of(b, key) {
            Some(v) => Some(v),
            None => value_of(a, key),
        },
    decreases b.len(),
{
    if b.len() == 0 {
        assert(a + b =~= a);
    } else {
        assert((a + b).drop_last() =~= a + b.drop_last());
        lemma_value_of_concat(a, b.drop_last(), key);
    }
}

/// The fields of a case, and none where it has none.
pub open spec fn own_fields<V>(case: Option<Vec<(String, V)>>) -> Seq<(String, V)> {
    match case {
        Some(case) => case@,
        None => Seq::empty(),
    }
}

/// The fields that cases share, and then those of a case: of two fields with one key the
/// later counts.
pub fn merge_json_objects<V>(shared: Vec<(String, V)>, case: Option<Vec<(String, V)>>) -> (r: Vec<
    (String, V),
>)
    ensures
        r@ == shared@ + own_fields(case),
        forall|key: Seq<char>| #[trigger]
            value_of(r@, key) == match value_of(own_fields(case), key) {
                Some(v) => Some(v),
                None => value_of(shared@, key),
            },
{
    let ghost first = shared@;
    let ghost second = own_fields(case);
    let mut r = shared;
    match case {
        Some(case) => {
            let mut case = case;
            r.append(&mut case);
        },
        None => {},
    }
    proof {
        assert(r@ =~= first + second);
        assert forall|key: Seq<char>| #[trigger]
            value_of(r@, key) == (match value_of(second, key) {
                Some(v) => Some(v),
                None => value_of(first, key),
            }) by {
            lemma_value_of_concat(first, second, key);
        }
    }
    r
}

// ---------------------------------------------------------------------------
// Cases
// ---------------------------------------------------------------------------

/// A number with three digits or more.
pub open spec fn three_digits(n: nat) -> Seq<char> {
    if n < 10 {
        "00"@ + decimal_of(n)
    } else if n < 100 {
        "0"@ + decimal_of(n)
    } else {
        decimal_of(n)
    }
}

/// The name of a case: its own, or one by its place in the source.
pub fn case_identifier(case_id: Option<&str>, source_id: &str, index: u64) -> (r: String)
    requires
        index < u64::MAX,
    ensures
        r@ == match case_id {
            Some(id) => id@,
            None => source_id@ + "-"@ + three_digits((index + 1) as nat),
        },
{
    match case_id {
        Some(id) => id.to_owned(),
        None => {
            let number = decimal(index + 1);
            let padding = if index + 1 < 10 {
                "00"
            } else if index + 1 < 100 {
                "0"
            } else {
                ""
            };
            proof {
                reveal_strlit("");
                assert(""@ + number@ =~= number@);
            }
            let digits = concat2(padding, number.as_str());
            concat3(source_id, "-", digits.as_str())
        },
    }
}

/// The language of a file, by its ending.
pub open spec fn language_of(path: Seq<char>) -> Option<Seq<char>> {
    if ".rs"@.is_suffix_of(path) {
        Some("rust"@)
    } else if ".go"@.is_suffix_of(path) {
        Some("go"@)
    } else if ".py"@.is_suffix_of(path) {
        Some("python"@)
    } else if ".ts"@.is_suffix_of(path) || ".tsx"@.is_suffix_of(path) {
        Some("typescript"@)
    } else if ".js"@.is_suffix_of(path) || ".mjs"@.is_suffix_of(path) {
        Some("javascript"@)
    } else if ".yml"@.is_suffix_of(path) || ".yaml"@.is_suffix_of(path) {
        Some("yaml"@)
    } else if ".sh"@.is_suffix_of(path) {
        Some("shell"@)
    } else {
        None
    }
}

fn language_by_ending(path: &str) -> (r: Option<&'static str>)
    ensures
        match r {
            Some(l) => language_of(path@) == Some(l@),
            None => language_of(path@) is None,
        },
{
    if ends_with(path, ".rs") {
        Some("rust")
    } else if ends_with(path, ".go") {
        Some("go")
    } else if ends_with(path, ".py") {
        Some("python")
    } else if ends_with(path, ".ts") || ends_with(path, ".tsx") {
        Some("typescript")
    } else if ends_with(path, ".js") || ends_with(path, ".mjs") {
        Some("javascript")
    } else if ends_with(path, ".yml") || ends_with(path, ".yaml") {
        Some("yaml")
    } else if ends_with(path, ".sh") {
        Some("shell")
    } else {
        None
    }
}

/// The languages of files, as far as they are known.
pub open spec fn known_languages(paths: Seq<Seq<char>>) -> Seq<Seq<char>>
    decreases paths.len(),
{
    if paths.len() == 0 {
        Seq::empty()
    } else {
        match language_of(paths.last()) {
            Some(l) => known_languages(paths.drop_last()).push(l),
            None => known_languages(paths.drop_last()),
        }
    }
}

/// The languages of files in order, each once.
pub open spec fn inferred_language(paths: Seq<Seq<char>>) -> Seq<char> {
    if known_languages(paths).len() == 0 {
        "other"@
    } else {
        joined(ordered_set(known_languages(paths)), "+"@)
    }
}

/// The languages of files in order, each once.
pub fn infer_language(paths: &Vec<String>) -> (r: String)
    ensures
        r@ == inferred_language(views(paths@)),
{
    let ghost all = views(paths@);
    let mut languages: Vec<String> = Vec::new();
    let mut i: usize = 0;
    proof {
        assert(views(languages@) =~= known_languages(all.take(0)));
    }
    while i < paths.len()
        invariant
            i <= paths@.len(),
            all == views(paths@),
            views(languages@) == known_languages(all.take(i as int)),
        decreases paths@.len() - i,
    {
        proof {
            assert(all.take(i + 1).drop_last() =~= all.take(i as int));
            assert(all.take(i + 1).last() == paths@[i as int]@);
        }
        let ghost before = views(languages@);
        match language_by_ending(paths[i].as_str()) {
            Some(language) => {
                languages.push(language.to_owned());
                proof {
                    assert(views(languages@) =~= before.push(language@));
                }
            },
            None => {},
        }
        i += 1;
    }
    proof {
        assert(all.take(all.len() as int) =~= all);
        assert(views(languages@).len() == languages@.len());
    }
    if languages.len() == 0 {
        return "other".to_owned();
    }
    let ordered = sort_unique(languages);
    join(&ordered, "+")
}

/// The diff adds this line.
pub open spec fn adds_a_line(line: Seq<char>) -> bool {
    "+"@.is_prefix_of(line) && !"+++"@.is_prefix_of(line)
}

/// How many lines a diff adds.
pub open spec fn added_lines(lines: Seq<Seq<char>>) -> nat
    decreases lines.len(),
{
    if lines.len() == 0 {
        0
    } else {
        added_lines(lines.drop_last()) + if adds_a_line(lines.last()) {
            1nat
        } else {
            0nat
        }
    }
}

/// How many lines a diff adds, up to `u32::MAX`.
pub fn count_added_lines(diff: &str) -> (r: u32)
    ensures
        r == if added_lines(lines_of(diff@)) <= u32::MAX {
            added_lines(lines_of(diff@))
        } else {
            u32::MAX as nat
        },
{
    let all = lines(diff);
    let mut count: usize = 0;
    let mut i: usize = 0;
    while i < all.len()
        invariant
            i <= all@.len(),
            count <= i,
            views(all@) == lines_of(diff@),
            count == added_lines(views(all@).take(i as int)),
        decreases all@.len() - i,
    {
        proof {
            assert(views(all@).take(i + 1).drop_last() =~= views(all@).take(i as int));
            assert(views(all@).take(i + 1).last() == all@[i as int]@);
        }
        let line = all[i].as_str();
        if starts_with(line, "+") && !starts_with(line, "+++") {
            count += 1;
        }
        i += 1;
    }
    proof {
        assert(views(all@).take(all@.len() as int) =~= views(all@));
    }
    if count <= u32::MAX as usize {
        count as u32
    } else {
        u32::MAX
    }
}

/// A claim that is known to be right or wrong.
#[derive(Debug, PartialEq, Eq)]
pub struct AdjudicatedClaim {
    pub semantic_key: String,
    pub claim: String,
}

/// What is expected of a case: that a finding is made, or that it is not.
#[derive(Debug, PartialEq, Eq)]
pub enum BenchmarkCaseExpectation {
    /// The finding is expected, as a serious one that blocks.
    Finding(AdjudicatedClaim),
    /// The claim is known to be wrong.
    NonFinding(AdjudicatedClaim),
}

/// What is expected of a case.
pub enum ExpectationView {
    Finding { semantic_key: Seq<char>, claim: Seq<char> },
    NonFinding { semantic_key: Seq<char>, claim: Seq<char> },
}

impl View for BenchmarkCaseExpectation {
    type V = ExpectationView;

    open spec fn view(&self) -> ExpectationView {
        match self {
            BenchmarkCaseExpectation::Finding(c) => ExpectationView::Finding {
                semantic_key: c.semantic_key@,
                claim: c.claim@,
            },
            BenchmarkCaseExpectation::NonFinding(c) => ExpectationView::NonFinding {
                semantic_key: c.semantic_key@,
                claim: c.claim@,
            },
        }
    }
}

/// What is expected of a case.
pub open spec fn expected_of(
    case_id: Seq<char>,
    grounding: Option<GroundingView>,
    expected_blocking: bool,
) -> Result<ExpectationView, Seq<char>> {
    match grounding {
        None => Err("benchmark case `"@ + case_id + "` finding must have grounding"@),
        Some(g) => if expected_blocking {
            Ok(ExpectationView::Finding { semantic_key: g.semantic_key, claim: g.claim })
        } else {
            Ok(ExpectationView::NonFinding { semantic_key: g.semantic_key, claim: g.claim })
        },
    }
}

/// An expectation or what is wrong.
pub open spec fn expectation_result(r: Result<BenchmarkCaseExpectation, String>) -> Result<
    ExpectationView,
    Seq<char>,
> {
    match r {
        Ok(e) => Ok(e@),
        Err(e) => Err(e@),
    }
}

/// What is expected of a case.
pub fn case_expectation(
    case_id: &str,
    finding: &Finding,
    expected_blocking: bool,
) -> (r: Result<BenchmarkCaseExpectation, String>)
    ensures
        expectation_result(r) == expected_of(case_id@, finding@.grounding, expected_blocking),
{
    match &finding.grounding {
        None => Err(concat3("benchmark case `", case_id, "` finding must have grounding")),
        Some(g) => {
            let claim = AdjudicatedClaim {
                semantic_key: g.semantic_key.clone(),
                claim: g.claim.clone(),
            };
            if expected_blocking {
                Ok(BenchmarkCaseExpectation::Finding(claim))
            } else {
                Ok(BenchmarkCaseExpectation::NonFinding(claim))
            }
        },
    }
}

/// What a finding is in a run: its key, or its fingerprint where it has no grounding, and
/// whether it blocks.
pub open spec fn observed(finding: FindingView) -> (Seq<char>, bool) {
    (
        match finding.grounding {
            Some(g) => g.semantic_key,
            None => finding.semantic_fingerprint,
        },
        finding.blocking,
    )
}

/// What the findings of a run are.
pub fn observed_findings(findings: &Vec<Finding>) -> (r: Vec<BenchmarkObservedFinding>)
    ensures
        observed_views(r@) == finding_views(findings@).map_values(|f: FindingView| observed(f)),
{
    let mut r: Vec<BenchmarkObservedFinding> = Vec::new();
    let mut i: usize = 0;
    while i < findings.len()
        invariant
            i <= findings@.len(),
            r@.len() == i,
            forall|k: int|
                0 <= k < i ==> ((#[trigger] r@[k]).semantic_key@, r@[k].blocking) == observed(
                    findings@[k]@,
                ),
        decreases findings@.len() - i,
    {
        let f = &findings[i];
        let semantic_key = match &f.grounding {
            Some(g) => g.semantic_key.clone(),
            None => f.semantic_fingerprint.clone(),
        };
        r.push(BenchmarkObservedFinding { semantic_key, blocking: f.blocking });
        i += 1;
    }
    proof {
        assert(observed_views(r@) =~= finding_views(findings@).map_values(
            |f: FindingView| observed(f),
        ));
    }
    r
}

/// A finding of the general angle.
pub open spec fn of_general_angle(f: FindingView) -> FindingView {
    FindingView { angle_id: Some("general"@), ..f }
}

/// The review that a captured answer stands for.
pub open spec fn captured_artifact(findings: Seq<FindingView>) -> ArtifactView {
    let all = findings.map_values(|f: FindingView| of_general_angle(f));
    ArtifactView {
        score: Some(score_of(all)),
        status: status_of_score(score_of(all)),
        verdict: "Captured benchmark response."@,
        models: seq!["benchmark/captured"@],
        review_stages: Seq::empty(),
        angle_results: seq![
            AngleResultView {
                id: "general"@,
                name: "General"@,
                score: DEFAULT_TARGET_SCORE,
                status: ReviewStatus::Passed,
                verdict: "Captured benchmark response."@,
                model: "benchmark/captured"@,
                finding_ids: all.map_values(|f: FindingView| f.id),
            },
        ],
        angle_errors: Seq::empty(),
        findings: all,
        tracked_angle_ids: Seq::empty(),
        notes: Seq::empty(),
        cost: ReviewCost { has_cost: true, source: None, mixed: true },
    }
}

/// The review that a captured answer stands for.
pub fn artifact_from_findings(findings: Vec<Finding>) -> (r: ReviewArtifact)
    ensures
        r@ == captured_artifact(finding_views(findings@)),
{
    let ghost given = finding_views(findings@);
    let ghost all = given.map_values(|f: FindingView| of_general_angle(f));
    let mut left = findings;
    let ghost from = findings@;
    let ghost mut done: int = 0;
    let mut kept: Vec<Finding> = Vec::new();
    let mut finding_ids: Vec<String> = Vec::new();
    proof {
        assert(from.skip(0) =~= from);
    }
    while left.len() > 0
        invariant
            0 <= done <= from.len(),
            left@ == from.skip(done),
            given == finding_views(from),
            all == given.map_values(|f: FindingView| of_general_angle(f)),
            kept@.len() == done,
            finding_ids@.len() == done,
            forall|k: int| 0 <= k < done ==> (#[trigger] kept@[k])@ == all[k],
            forall|k: int| 0 <= k < done ==> (#[trigger] finding_ids@[k])@ == all[k].id,
        decreases left@.len(),
    {
        proof {
            assert(left@[0] == from[done]);
        }
        let mut finding = left.remove(0);
        finding.angle_id = Some("general".to_owned());
        finding_ids.push(finding.id.clone());
        proof {
            assert(left@ =~= from.skip(done + 1));
            assert(all[done] == of_general_angle(from[done]@));
            done = done + 1;
        }
        kept.push(finding);
    }
    let score: u8 = compute_score(&kept);
    let mut models: Vec<String> = Vec::new();
    models.push("benchmark/captured".to_owned());
    let mut angle_results: Vec<ReviewAngleResult> = Vec::new();
    angle_results.push(
        ReviewAngleResult {
            id: "general".to_owned(),
            name: "General".to_owned(),
            score: DEFAULT_TARGET_SCORE,
            status: ReviewStatus::Passed,
            verdict: "Captured benchmark response.".to_owned(),
            model: "benchmark/captured".to_owned(),
            finding_ids,
        },
    );
    let r = ReviewArtifact {
        score: Some(score),
        status: status_for_score(score),
        verdict: "Captured benchmark response.".to_owned(),
        models,
        review_stages: Vec::new(),
        angle_results,
        angle_errors: Vec::new(),
        findings: kept,
        tracked_angle_ids: Vec::new(),
        notes: Vec::new(),
        cost: ReviewCost { has_cost: true, source: None, mixed: true },
    };
    proof {
        let expected = captured_artifact(given);
        assert(finding_views(kept@) =~= all);
        assert(r@.models =~= expected.models);
        assert(r@.review_stages =~= expected.review_stages);
        assert(r@.angle_results[0].finding_ids =~= expected.angle_results[0].finding_ids);
        assert(r@.angle_results =~= expected.angle_results);
        assert(r@.angle_errors =~= expected.angle_errors);
        assert(r@.tracked_angle_ids =~= expected.tracked_angle_ids);
        assert(r@.notes =~= expected.notes);
    }
    r
}

/// Where the findings for a configuration stand, if a case has findings of its own for it.
pub open spec fn configured_at(ids: Seq<Seq<char>>, configuration: Seq<char>, from: int) -> Option<
    int,
>
    decreases ids.len() - from,
{
    if from < 0 || from >= ids.len() {
        None
    } else if ids[from] == configuration {
        Some(from)
    } else {
        configured_at(ids, configuration, from + 1)
    }
}

/// Where the findings for a configuration stand, if a case has findings of its own for it.
pub fn configured_findings(ids: &Vec<String>, configuration: &str) -> (r: Option<usize>)
    ensures
        match r {
            Some(i) => configured_at(views(ids@), configuration@, 0) == Some(i as int),
            None => configured_at(views(ids@), configuration@, 0) is None,
        },
{
    let ghost all = views(ids@);
    let mut i: usize = 0;
    while i < ids.len()
        invariant
            i <= ids@.len(),
            all == views(ids@),
            configured_at(all, configuration@, 0) == configured_at(
                all,
                configuration@,
                i as int,
            ),
        decreases ids@.len() - i,
    {
        if same_text(ids[i].as_str(), configuration) {
            return Some(i);
        }
        i += 1;
    }
    None
}

/// The directory that a case is laid out in.
#[derive(Debug, PartialEq, Eq)]
pub struct TempCaseRoot {
    path: String,
}

/// A character as it stands in the name of a directory.
pub open spec fn safe_char(c: char) -> char {
    if ascii_alphanumeric(c) {
        c
    } else {
        '-'
    }
}

/// Where a case is laid out.
pub open spec fn case_root(
    temp_dir: Seq<char>,
    process_id: nat,
    sequence: nat,
    case_id: Seq<char>,
) -> Seq<char> {
    crate::paths::in_repository(
        temp_dir,
        "reviewgate-benchmark-"@ + decimal_of(process_id) + "-"@ + decimal_of(sequence) + "-"@
            + case_id.map_values(|c: char| safe_char(c)),
    )
}

fn safe_identifier(case_id: &str) -> (r: String)
    ensures
        r@ == case_id@.map_values(|c: char| safe_char(c)),
{
    let v = chars_of(case_id);
    let mut out: Vec<char> = Vec::new();
    let mut i: usize = 0;
    while i < v.len()
        invariant
            i <= v@.len(),
            out@.len() == i,
            forall|k: int| 0 <= k < i ==> #[trigger] out@[k] == safe_char(v@[k]),
        decreases v@.len() - i,
    {
        if is_ascii_alphanumeric(v[i]) {
            out.push(v[i]);
        } else {
            out.push('-');
        }
        i += 1;
    }
    let r = text_of(&out, 0, out.len());
    proof {
        assert(out@.subrange(0, out@.len() as int) =~= out@);
        assert(r@ =~= case_id@.map_values(|c: char| safe_char(c)));
    }
    r
}

impl TempCaseRoot {
    /// Where the case is laid out.
    pub closed spec fn place(&self) -> Seq<char> {
        self.path@
    }

    /// The directory of a case.
    pub fn new(temp_dir: &str, process_id: u64, sequence: u64, case_id: &str) -> (r: Self)
        ensures
            r.place() == case_root(temp_dir@, process_id as nat, sequence as nat, case_id@),
    {
        let pid = decimal(process_id);
        let number = decimal(sequence);
        let id = safe_identifier(case_id);
        let name = concat3("reviewgate-benchmark-", pid.as_str(), "-");
        let name = concat3(name.as_str(), number.as_str(), "-");
        let name = concat2(name.as_str(), id.as_str());
        proof {
            reveal_strlit("reviewgate-benchmark-");
            assert(name@[0] == 'r');
        }
        TempCaseRoot { path: crate::paths::resolve_repo_path(temp_dir, name.as_str()) }
    }

    /// Where the case is laid out.
    pub fn path(&self) -> (r: &str)
        ensures
            r@ == self.place(),
    {
        self.path.as_str()
    }
}

// ---------------------------------------------------------------------------
// Reports
// ---------------------------------------------------------------------------

/// A row of the report: the numbers are given as they are printed.
#[derive(Debug, PartialEq, Eq)]
pub struct ReportRow {
    pub id: String,
    pub blocking_precision: Option<String>,
    pub serious_defect_recall: Option<String>,
    pub false_blockers_per_case: String,
    pub contradiction_rate: Option<String>,
    pub rereview_stability: Option<String>,
    pub spent_cost_usd: Option<String>,
    pub estimated_cost_usd: Option<String>,
    pub mean_latency_ms: Option<String>,
}

/// A threshold in the report.
#[derive(Debug, PartialEq, Eq)]
pub struct ReportThreshold {
    pub name: String,
    pub passed: bool,
    pub actual: Option<String>,
    pub required: String,
}

/// What is reported.
#[derive(Debug, PartialEq, Eq)]
pub struct MarkdownReport {
    pub passed: bool,
    pub mode: String,
    pub case_count: u64,
    pub repetitions: u64,
    pub blinded: bool,
    pub rows: Vec<ReportRow>,
    pub thresholds: Vec<ReportThreshold>,
}

/// A number as it is printed, or that there is none.
pub open spec fn or_none(value: Option<Seq<char>>) -> Seq<char> {
    match value {
        Some(v) => v,
        None => "n/a"@,
    }
}

/// A number as it is printed, or that there is none.
pub fn format_optional(value: &Option<String>) -> (r: String)
    ensures
        r@ == or_none(opt_view(*value)),
{
    match value {
        Some(v) => v.clone(),
        None => "n/a".to_owned(),
    }
}

/// The line of a configuration.
pub open spec fn row_line(row: ReportRow) -> Seq<char> {
    "| "@ + row.id@ + " | "@ + or_none(opt_view(row.blocking_precision)) + " | "@ + or_none(
        opt_view(row.serious_defect_recall),
    ) + " | "@ + row.false_blockers_per_case@ + " | "@ + or_none(opt_view(row.contradiction_rate))
        + " | "@ + or_none(opt_view(row.rereview_stability)) + " | "@ + or_none(
        if row.spent_cost_usd is Some {
            opt_view(row.spent_cost_usd)
        } else {
            opt_view(row.estimated_cost_usd)
        },
    ) + " | "@ + or_none(opt_view(row.mean_latency_ms)) + " |\n"@
}

/// The line of a threshold.
pub open spec fn threshold_line(t: ReportThreshold) -> Seq<char> {
    "- ["@ + (if t.passed {
        "x"@
    } else {
        " "@
    }) + "] `"@ + t.name@ + "`: actual "@ + or_none(opt_view(t.actual)) + ", required "@
        + t.required@ + "\n"@
}

/// The lines of configurations.
pub open spec fn row_lines(rows: Seq<ReportRow>) -> Seq<char>
    decreases rows.len(),
{
    if rows.len() == 0 {
        Seq::empty()
    } else {
        row_lines(rows.drop_last()) + row_line(rows.last())
    }
}

/// The lines of thresholds.
pub open spec fn threshold_lines(thresholds: Seq<ReportThreshold>) -> Seq<char>
    decreases thresholds.len(),
{
    if thresholds.len() == 0 {
        Seq::empty()
    } else {
        threshold_lines(thresholds.drop_last()) + threshold_line(thresholds.last())
    }
}

/// What the report begins with.
pub open spec fn report_head(report: MarkdownReport) -> Seq<char> {
    "# ReviewGate replacement benchmark\n\n- Result: **"@ + (if report.passed {
        "PASS"@
    } else {
        "FAIL"@
    }) + "**\n- Mode: `"@ + report.mode@ + "`\n- Corpus: "@ + decimal_of(report.case_count as nat)
        + " cases, "@ + decimal_of(report.repetitions as nat) + " repetitions, blinded: "@ + (
    if report.blinded {
        "true"@
    } else {
        "false"@
    }) + "\n\n"@
}

/// The titles of the columns.
pub const REPORT_COLUMNS: &'static str = "| Configuration | Precision | Serious recall | False blockers/case | Contradictions | Stability | Cost (USD) | Mean latency (ms) |\n| --- | ---: | ---: | ---: | ---: | ---: | ---: | ---: |\n";

/// The report.
pub open spec fn markdown_report(report: MarkdownReport) -> Seq<char> {
    report_head(report) + REPORT_COLUMNS@ + row_lines(report.rows@) + "\n## Rollout gate\n\n"@
        + threshold_lines(report.thresholds@)
}

fn render_row(row: &ReportRow) -> (r: String)
    ensures
        r@ == row_line(*row),
{
    let precision = format_optional(&row.blocking_precision);
    let recall = format_optional(&row.serious_defect_recall);
    let contradictions = format_optional(&row.contradiction_rate);
    let stability = format_optional(&row.rereview_stability);
    let cost = if row.spent_cost_usd.is_some() {
        format_optional(&row.spent_cost_usd)
    } else {
        format_optional(&row.estimated_cost_usd)
    };
    let latency = format_optional(&row.mean_latency_ms);
    let mut r = concat3("| ", row.id.as_str(), " | ");
    r.append(precision.as_str());
    r.append(" | ");
    r.append(recall.as_str());
    r.append(" | ");
    r.append(row.false_blockers_per_case.as_str());
    r.append(" | ");
    r.append(contradictions.as_str());
    r.append(" | ");
    r.append(stability.as_str());
    r.append(" | ");
    r.append(cost.as_str());
    r.append(" | ");
    r.append(latency.as_str());
    r.append(" |\n");
    r
}

fn render_threshold(t: &ReportThreshold) -> (r: String)
    ensures
        r@ == threshold_line(*t),
{
    let mark = if t.passed {
        "x"
    } else {
        " "
    };
    let actual = format_optional(&t.actual);
    let mut r = concat3("- [", mark, "] `");
    r.append(t.name.as_str());
    r.append("`: actual ");
    r.append(actual.as_str());
    r.append(", required ");
    r.append(t.required.as_str());
    r.append("\n");
    r
}

fn render_head(report: &MarkdownReport) -> (r: String)
    ensures
        r@ == report_head(*report),
{
    let result = if report.passed {
        "PASS"
    } else {
        "FAIL"
    };
    let blinded = if report.blinded {
        "true"
    } else {
        "false"
    };
    let cases = decimal(report.case_count);
    let repetitions = decimal(report.repetitions);
    let mut r = concat3(
        "# ReviewGate replacement benchmark\n\n- Result: **",
        result,
        "**\n- Mode: `",
    );
    r.append(report.mode.as_str());
    r.append("`\n- Corpus: ");
    r.append(cases.as_str());
    r.append(" cases, ");
    r.append(repetitions.as_str());
    r.append(" repetitions, blinded: ");
    r.append(blinded);
    r.append("\n\n");
    r
}

/// The report.
pub fn render_markdown_report(report: &MarkdownReport) -> (r: String)
    ensures
        r@ == markdown_report(*report),
{
    let mut r = render_head(report);
    r.append(REPORT_COLUMNS);
    let ghost start = r@;
    let mut i: usize = 0;
    proof {
        assert(start + row_lines(report.rows@.take(0)) =~= start);
    }
    while i < report.rows.len()
        invariant
            i <= report.rows@.len(),
            r@ == start + row_lines(report.rows@.take(i as int)),
        decreases report.rows@.len() - i,
    {
        proof {
            assert(report.rows@.take(i + 1).drop_last() =~= report.rows@.take(i as int));
            assert(report.rows@.take(i + 1).last() == report.rows@[i as int]);
        }
        let line = render_row(&report.rows[i]);
        let ghost before = r@;
        r.append(line.as_str());
        proof {
            assert(r@ =~= start + row_lines(report.rows@.take(i + 1)));
        }
        i += 1;
    }
    proof {
        assert(report.rows@.take(report.rows@.len() as int) =~= report.rows@);
    }
    r.append("\n## Rollout gate\n\n");
    let ghost middle = r@;
    let mut i: usize = 0;
    proof {
        assert(middle + threshold_lines(report.thresholds@.take(0)) =~= middle);
    }
    while i < report.thresholds.len()
        invariant
            i <= report.thresholds@.len(),
            r@ == middle + threshold_lines(report.thresholds@.take(i as int)),
        decreases report.thresholds@.len() - i,
    {
        proof {
            assert(report.thresholds@.take(i + 1).drop_last() =~= report.thresholds@.take(
                i as int,
            ));
            assert(report.thresholds@.take(i + 1).last() == report.thresholds@[i as int]);
        }
        let line = render_threshold(&report.thresholds[i]);
        r.append(line.as_str());
        proof {
            assert(r@ =~= middle + threshold_lines(report.thresholds@.take(i + 1)));
        }
        i += 1;
    }
    proof {
        assert(report.thresholds@.take(report.thresholds@.len() as int) =~= report.thresholds@);
    }
    r
}

// ---------------------------------------------------------------------------
// Fixtures
// ---------------------------------------------------------------------------

/// A fixture is a file whose name ends in `.json`, with something before it.
pub open spec fn fixture_name(path: Seq<char>) -> bool {
    match file_name_of(path) {
        Some(name) => ".json"@.is_suffix_of(name) && name != ".json"@,
        None => false,
    }
}

/// Whether a file is a fixture.
pub fn is_fixture(path: &str) -> (r: bool)
    ensures
        r == fixture_name(path@),
{
    match file_name(path) {
        Some(name) => ends_with(name.as_str(), ".json") && !same_text(name.as_str(), ".json"),
        None => false,
    }
}

/// What is counted of a fixture.
#[derive(Debug, Clone, Copy, PartialEq, Eq, Structural)]
pub struct FixtureMetrics {
    pub score: Option<u8>,
    pub finding_count: u32,
    pub blocking_finding_count: u32,
}

/// What fixtures come to.
#[derive(Debug, Clone, Copy, PartialEq, Eq, Structural)]
pub struct FixtureTotals {
    pub score_sum: u64,
    pub scored_fixture_count: usize,
    pub finding_count: usize,
    pub blocking_finding_count: usize,
}

/// What fixtures come to: the sum of the scores, how many have one, and how many
/// findings and blockers there are.
pub open spec fn fixture_sums(fixtures: Seq<FixtureMetrics>) -> (nat, nat, nat, nat)
    decreases fixtures.len(),
{
    if fixtures.len() == 0 {
        (0, 0, 0, 0)
    } else {
        let (score, scored, findings, blocking) = fixture_sums(fixtures.drop_last());
        let f = fixtures.last();
        (
            score + match f.score {
                Some(s) => s as nat,
                None => 0,
            },
            scored + if f.score is Some {
                1nat
            } else {
                0nat
            },
            findings + f.finding_count as nat,
            blocking + f.blocking_finding_count as nat,
        )
    }
}

proof fn lemma_fixture_sums(fixtures: Seq<FixtureMetrics>, n: int)
    requires
        0 <= n <= fixtures.len(),
    ensures
        fixture_sums(fixtures.take(n)).0 <= fixture_sums(fixtures).0,
        fixture_sums(fixtures.take(n)).1 <= n,
        fixture_sums(fixtures.take(n)).2 <= fixture_sums(fixtures).2,
        fixture_sums(fixtures.take(n)).3 <= fixture_sums(fixtures).3,
    decreases fixtures.len() - n,
{
    lemma_scored(fixtures.take(n));
    if n < fixtures.len() {
        lemma_fixture_sums(fixtures, n + 1);
        assert(fixtures.take(n + 1).drop_last() =~= fixtures.take(n));
    } else {
        assert(fixtures.take(n) =~= fixtures);
    }
}

proof fn lemma_scored(fixtures: Seq<FixtureMetrics>)
    ensures
        fixture_sums(fixtures).1 <= fixtures.len(),
    decreases fixtures.len(),
{
    if fixtures.len() > 0 {
        lemma_scored(fixtures.drop_last());
    }
}

/// What fixtures come to.
pub fn eval_fixtures(fixtures: &Vec<FixtureMetrics>) -> (r: FixtureTotals)
    requires
        fixture_sums(fixtures@).0 <= u64::MAX,
        fixture_sums(fixtures@).2 <= usize::MAX,
        fixture_sums(fixtures@).3 <= usize::MAX,
    ensures
        (
            r.score_sum as nat,
            r.scored_fixture_count as nat,
            r.finding_count as nat,
            r.blocking_finding_count as nat,
        ) == fixture_sums(fixtures@),
{
    let mut r = FixtureTotals {
        score_sum: 0,
        scored_fixture_count: 0,
        finding_count: 0,
        blocking_finding_count: 0,
    };
    let mut i: usize = 0;
    while i < fixtures.len()
        invariant
            i <= fixtures@.len(),
            fixture_sums(fixtures@).0 <= u64::MAX,
            fixture_sums(fixtures@).2 <= usize::MAX,
            fixture_sums(fixtures@).3 <= usize::MAX,
            r.scored_fixture_count <= i,
            (
                r.score_sum as nat,
                r.scored_fixture_count as nat,
                r.finding_count as nat,
                r.blocking_finding_count as nat,
            ) == fixture_sums(fixtures@.take(i as int)),
        decreases fixtures@.len() - i,
    {
        proof {
            assert(fixtures@.take(i + 1).drop_last() =~= fixtures@.take(i as int));
            assert(fixtures@.take(i + 1).last() == fixtures@[i as int]);
            lemma_fixture_sums(fixtures@, i + 1);
        }
        let f = fixtures[i];
        if let Some(score) = f.score {
            r.score_sum = r.score_sum + score as u64;
            r.scored_fixture_count = r.scored_fixture_count + 1;
        }
        r.finding_count = r.finding_count + f.finding_count as usize;
        r.blocking_finding_count = r.blocking_finding_count + f.blocking_finding_count as usize;
        i += 1;
    }
    proof {
        assert(fixtures@.take(fixtures@.len() as int) =~= fixtures@);
    }
    r
}

// ---------------------------------------------------------------------------
// What holds of it
// ---------------------------------------------------------------------------

/// As many cases are run as are left under the limit; without a limit all of them are, and
/// the limit is reached exactly if there is one and nothing is left under it.
pub proof fn law_cases_run_up_to_the_limit(max: usize, loaded: nat, available: nat)
    ensures
        case_quota(None, loaded, available) == (available, false),
        loaded + available <= max ==> case_quota(Some(max), loaded, available).0 == available,
        loaded <= max && loaded + available > max ==> case_quota(Some(max), loaded, available).0
            == max - loaded,
        loaded > max ==> case_quota(Some(max), loaded, available).0 == 0,
        loaded + available < max ==> !case_quota(Some(max), loaded, available).1,
        loaded + available >= max ==> case_quota(Some(max), loaded, available).1,
{
}

/// A live benchmark may ask a hundred times and no more.
pub proof fn law_live_requests_are_limited(cases: nat, repetitions: nat)
    ensures
        request_count_error(cases, repetitions) is Ok <==> cases * repetitions <= 100,
{
}

/// An input is taken as it is given where it is relative, with slashes, and has to be in
/// the repository where it is not.
pub proof fn law_inputs_are_confined(repo: Seq<char>, input: Seq<char>, label: Seq<char>)
    ensures
        !absolute(input) ==> confined_input(repo, input, label) == Ok::<Seq<char>, Seq<char>>(
            with_slashes(input),
        ),
        absolute(input) && within(repo, input) is None ==> confined_input(repo, input, label)
            is Err,
        within(repo, input) matches Some(relative) ==> absolute(input) ==> confined_input(
            repo,
            input,
            label,
        ) == Ok::<Seq<char>, Seq<char>>(with_slashes(relative)),
        with_slashes(input).len() == input.len(),
        forall|i: int|
            0 <= i < input.len() ==> (#[trigger] with_slashes(input)[i] == if input[i] == '\\' {
                '/'
            } else {
                input[i]
            }),
{
}

/// What stands behind a base is what is left once its parts are taken off one by one; parts
/// that name nothing do not count.
pub proof fn law_parts_behind_a_base(
    part: Seq<char>,
    other: Seq<char>,
    parts: Seq<Seq<char>>,
    base: Seq<Seq<char>>,
)
    requires
        part.len() > 0 && part != "."@,
        other.len() > 0 && other != "."@,
        part != other,
    ensures
        behind(parts, Seq::empty()) == Some(parts),
        behind(seq![part] + parts, seq![part] + base) == behind(parts, base),
        behind(seq![part] + parts, seq![other] + base) is None,
        behind(Seq::empty(), seq![part] + base) is None,
        behind(parts, seq![Seq::<char>::empty()] + base) == behind(parts, base),
        behind(seq![Seq::<char>::empty()] + parts, seq![part] + base) == behind(
            parts,
            seq![part] + base,
        ),
{
    assert((seq![part] + parts).skip(1) =~= parts);
    assert((seq![part] + base).skip(1) =~= base);
    assert((seq![other] + base).skip(1) =~= base);
    assert((seq![Seq::<char>::empty()] + base).skip(1) =~= base);
    assert((seq![Seq::<char>::empty()] + parts).skip(1) =~= parts);
    assert((seq![part] + parts)[0] == part);
    assert((seq![part] + base)[0] == part);
    assert((seq![other] + base)[0] == other);
    assert((seq![Seq::<char>::empty()] + base)[0].len() == 0);
    assert((seq![Seq::<char>::empty()] + parts)[0].len() == 0);
}

/// Where a source keeps its cases: under their field where it has one, and as all of it
/// otherwise. A provenance that is shared has to be an object.
pub proof fn law_layouts(source: JsonView)
    ensures
        layout_of(source) matches Ok(layout) ==> (layout.listed <==> source.get("cases"@) is Some)
            && (layout.shared_provenance <==> source.get("provenance"@) is Some),
        layout_of(source) is Err <==> (source.get("provenance"@) matches Some(v) && !(
        v is Object)),
{
}

/// The languages of a case are those of its files that are known, each once and in order;
/// without any it is another.
pub proof fn law_languages(paths: Seq<Seq<char>>, next: Seq<char>)
    ensures
        known_languages(Seq::empty()).len() == 0,
        language_of(next) matches Some(l) ==> known_languages(paths.push(next))
            == known_languages(paths).push(l),
        language_of(next) is None ==> known_languages(paths.push(next)) == known_languages(paths),
        known_languages(paths).len() == 0 ==> inferred_language(paths) == "other"@,
        known_languages(paths).len() > 0 ==> inferred_language(paths) == joined(
            ordered_set(known_languages(paths)),
            "+"@,
        ),
        ".rs"@.is_suffix_of(next) ==> language_of(next) == Some("rust"@),
{
    assert(paths.push(next).drop_last() =~= paths);
}

/// The ends of names that tell a language.
pub proof fn law_names_tell_languages(stem: Seq<char>)
    ensures
        language_of(stem + ".rs"@) == Some("rust"@),
        language_of(stem + ".go"@) == Some("go"@),
        language_of(stem + ".py"@) == Some("python"@),
        language_of(stem + ".ts"@) == Some("typescript"@),
        language_of(stem + ".js"@) == Some("javascript"@),
        language_of(stem + ".sh"@) == Some("shell"@),
        language_of(stem + ".yml"@) == Some("yaml"@),
{
    reveal_strlit(".rs");
    reveal_strlit(".go");
    reveal_strlit(".py");
    reveal_strlit(".ts");
    reveal_strlit(".tsx");
    reveal_strlit(".js");
    reveal_strlit(".mjs");
    reveal_strlit(".sh");
    reveal_strlit(".yml");
    reveal_strlit(".yaml");
    lemma_name_ends(stem, ".rs"@);
    lemma_name_ends(stem, ".go"@);
    lemma_name_ends(stem, ".py"@);
    lemma_name_ends(stem, ".ts"@);
    lemma_name_ends(stem, ".js"@);
    lemma_name_ends(stem, ".sh"@);
    lemma_name_ends(stem, ".yml"@);
    lemma_other_end(stem, ".go"@, ".rs"@, 1);
    lemma_other_end(stem, ".py"@, ".rs"@, 1);
    lemma_other_end(stem, ".py"@, ".go"@, 1);
    lemma_other_end(stem, ".ts"@, ".rs"@, 2);
    lemma_other_end(stem, ".ts"@, ".go"@, 1);
    lemma_other_end(stem, ".ts"@, ".py"@, 1);
    lemma_other_end(stem, ".js"@, ".rs"@, 2);
    lemma_other_end(stem, ".js"@, ".go"@, 1);
    lemma_other_end(stem, ".js"@, ".py"@, 1);
    lemma_other_end(stem, ".js"@, ".ts"@, 2);
    lemma_other_end(stem, ".js"@, ".tsx"@, 1);
    lemma_other_end(stem, ".sh"@, ".rs"@, 1);
    lemma_other_end(stem, ".sh"@, ".go"@, 1);
    lemma_other_end(stem, ".sh"@, ".py"@, 1);
    lemma_other_end(stem, ".sh"@, ".ts"@, 1);
    lemma_other_end(stem, ".sh"@, ".tsx"@, 1);
    lemma_other_end(stem, ".sh"@, ".js"@, 1);
    lemma_other_end(stem, ".sh"@, ".mjs"@, 1);
    lemma_other_end(stem, ".sh"@, ".yml"@, 1);
    lemma_other_end(stem, ".sh"@, ".yaml"@, 1);
    lemma_other_end(stem, ".yml"@, ".rs"@, 1);
    lemma_other_end(stem, ".yml"@, ".go"@, 1);
    lemma_other_end(stem, ".yml"@, ".py"@, 1);
    lemma_other_end(stem, ".yml"@, ".ts"@, 1);
    lemma_other_end(stem, ".yml"@, ".tsx"@, 1);
    lemma_other_end(stem, ".yml"@, ".js"@, 1);
    lemma_other_end(stem, ".yml"@, ".mjs"@, 1);
}

proof fn lemma_name_ends(stem: Seq<char>, end: Seq<char>)
    ensures
        end.is_suffix_of(stem + end),
{
    let all = stem + end;
    assert(all.subrange(all.len() - end.len(), all.len() as int) =~= end);
}

proof fn lemma_other_end(stem: Seq<char>, end: Seq<char>, other: Seq<char>, back: int)
    requires
        1 <= back <= end.len(),
        back <= other.len(),
        end[end.len() - back] != other[other.len() - back],
    ensures
        !other.is_suffix_of(stem + end),
{
    let all = stem + end;
    if other.is_suffix_of(all) {
        assert(all.subrange(all.len() - other.len(), all.len() as int)[other.len() - back]
            == other[other.len() - back]);
        assert(all[all.len() - back] == end[end.len() - back]);
    }
}

/// The added lines of a diff are counted one by one, but for the header of a file.
pub proof fn law_added_lines_are_counted(lines: Seq<Seq<char>>, line: Seq<char>)
    ensures
        added_lines(Seq::empty()) == 0,
        "+"@.is_prefix_of(line) && !"+++"@.is_prefix_of(line) ==> added_lines(lines.push(line))
            == added_lines(lines) + 1,
        !"+"@.is_prefix_of(line) || "+++"@.is_prefix_of(line) ==> added_lines(lines.push(line))
            == added_lines(lines),
{
    assert(lines.push(line).drop_last() =~= lines);
}

/// What is expected of a case: its claim is a finding where a blocker is expected, and known
/// to be wrong where none is; without grounding nothing can be expected.
pub proof fn law_expectations(case_id: Seq<char>, g: GroundingView)
    ensures
        expected_of(case_id, Some(g), true) == Ok::<ExpectationView, Seq<char>>(
            ExpectationView::Finding { semantic_key: g.semantic_key, claim: g.claim },
        ),
        expected_of(case_id, Some(g), false) == Ok::<ExpectationView, Seq<char>>(
            ExpectationView::NonFinding { semantic_key: g.semantic_key, claim: g.claim },
        ),
        expected_of(case_id, None, true) is Err && expected_of(case_id, None, false) is Err,
{
}

/// What is observed of a finding: its key, or its identity where it has none, and whether
/// it blocks.
pub proof fn law_observed_findings(f: FindingView)
    ensures
        f.grounding matches Some(g) ==> observed(f).0 == g.semantic_key,
        f.grounding is None ==> observed(f).0 == f.semantic_fingerprint,
        observed(f).1 <==> f.blocking,
{
}

/// A captured response is a review of the general angle with all its findings, as they are,
/// and their score.
pub proof fn law_captured_responses_hold_all_findings(findings: Seq<FindingView>, i: int)
    requires
        0 <= i < findings.len(),
    ensures
        captured_artifact(findings).findings.len() == findings.len(),
        captured_artifact(findings).findings[i] == (FindingView {
            angle_id: Some("general"@),
            ..findings[i]
        }),
        captured_artifact(findings).score == Some(score_of(findings)),
        captured_artifact(findings).status == ReviewStatus::Passed <==> score_of(findings) >= 5,
        captured_artifact(findings).angle_results.len() == 1,
        captured_artifact(findings).angle_results[0].id == "general"@,
        captured_artifact(findings).angle_results[0].finding_ids[i] == findings[i].id,
        captured_artifact(findings).angle_errors.len() == 0,
{
    lemma_scores_of_general(findings);
}

proof fn lemma_scores_of_general(findings: Seq<FindingView>)
    ensures
        score_of(findings.map_values(|f: FindingView| of_general_angle(f))) == score_of(findings),
    decreases findings.len(),
{
    let all = findings.map_values(|f: FindingView| of_general_angle(f));
    if findings.len() > 0 {
        lemma_scores_of_general(findings.drop_last());
        assert(all.drop_last() =~= findings.drop_last().map_values(
            |f: FindingView| of_general_angle(f),
        ));
    }
}

/// A configuration is the first with its name.
pub proof fn law_configurations_are_found(ids: Seq<Seq<char>>, configuration: Seq<char>)
    ensures
        configured_at(ids, configuration, 0) matches Some(i) ==> 0 <= i < ids.len() && ids[i]
            == configuration && forall|j: int| 0 <= j < i ==> #[trigger] ids[j] != configuration,
        configured_at(ids, configuration, 0) is None <==> !ids.contains(configuration),
{
    lemma_configured(ids, configuration, 0);
}

proof fn lemma_configured(ids: Seq<Seq<char>>, configuration: Seq<char>, from: int)
    requires
        0 <= from,
    ensures
        configured_at(ids, configuration, from) matches Some(i) ==> from <= i < ids.len() && ids[i]
            == configuration && forall|j: int| from <= j < i ==> #[trigger] ids[j] != configuration,
        configured_at(ids, configuration, from) is None ==> forall|j: int|
            from <= j < ids.len() ==> #[trigger] ids[j] != configuration,
    decreases ids.len() - from,
{
    if from < ids.len() && ids[from] != configuration {
        lemma_configured(ids, configuration, from + 1);
    }
}

/// A report has one line for each configuration and one for each threshold, in their order,
/// and says whether it passed; the cost is what was spent where that is known.
pub proof fn law_reports_have_a_line_for_each(
    rows: Seq<ReportRow>,
    row: ReportRow,
    thresholds: Seq<ReportThreshold>,
    threshold: ReportThreshold,
    report: MarkdownReport,
)
    ensures
        row_lines(rows.push(row)) == row_lines(rows) + row_line(row),
        row_lines(Seq::empty()).len() == 0,
        threshold_lines(thresholds.push(threshold)) == threshold_lines(thresholds)
            + threshold_line(threshold),
        threshold_lines(Seq::empty()).len() == 0,
        report.passed ==> "# ReviewGate replacement benchmark\n\n- Result: **PASS**"@.is_prefix_of(
            markdown_report(report),
        ),
        !report.passed ==> "# ReviewGate replacement benchmark\n\n- Result: **FAIL**"@.is_prefix_of(
            markdown_report(report),
        ),
        threshold.passed ==> "- [x] `"@.is_prefix_of(threshold_line(threshold)),
        !threshold.passed ==> "- [ ] `"@.is_prefix_of(threshold_line(threshold)),
{
    assert(rows.push(row).drop_last() =~= rows);
    assert(thresholds.push(threshold).drop_last() =~= thresholds);
    reveal_strlit("# ReviewGate replacement benchmark\n\n- Result: **PASS**");
    reveal_strlit("# ReviewGate replacement benchmark\n\n- Result: **FAIL**");
    reveal_strlit("# ReviewGate replacement benchmark\n\n- Result: **");
    reveal_strlit("PASS");
    reveal_strlit("FAIL");
    reveal_strlit("**\n- Mode: `");
    let all = markdown_report(report);
    if report.passed {
        let head = "# ReviewGate replacement benchmark\n\n- Result: **PASS**"@;
        assert(all.take(head.len() as int) =~= head);
    } else {
        let head = "# ReviewGate replacement benchmark\n\n- Result: **FAIL**"@;
        assert(all.take(head.len() as int) =~= head);
    }
    reveal_strlit("- [x] `");
    reveal_strlit("- [ ] `");
    reveal_strlit("- [");
    reveal_strlit("x");
    reveal_strlit(" ");
    reveal_strlit("] `");
    let line = threshold_line(threshold);
    if threshold.passed {
        assert(line.take("- [x] `"@.len() as int) =~= "- [x] `"@);
    } else {
        assert(line.take("- [ ] `"@.len() as int) =~= "- [ ] `"@);
    }
}

/// What fixtures come to is added up one by one; one without a score adds none.
pub proof fn law_fixtures_are_added_up(fixtures: Seq<FixtureMetrics>, f: FixtureMetrics)
    ensures
        fixture_sums(Seq::empty()) == (0nat, 0nat, 0nat, 0nat),
        ({
            let a = fixture_sums(fixtures);
            let b = fixture_sums(fixtures.push(f));
            &&& f.score matches Some(s) ==> b.0 == a.0 + s && b.1 == a.1 + 1
            &&& f.score is None ==> b.0 == a.0 && b.1 == a.1
            &&& b.2 == a.2 + f.finding_count
            &&& b.3 == a.3 + f.blocking_finding_count
        }),
{
    assert(fixtures.push(f).drop_last() =~= fixtures);
}

} // verus!
