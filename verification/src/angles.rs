//! Review angles, and why the review of one can fail.
use vstd::prelude::*;

use crate::number::{decimal_of, parse_unsigned, parse_up_to};
use crate::text::{
    ascii_alphanumeric, chars_of, contains, has_text, is_ascii_alphanumeric, lowercase, same_text,
    text_of, to_lowercase, views,
};

verus! {

/// Where the instructions of an angle come from.
#[derive(Debug, PartialEq, Eq)]
pub enum ReviewAngleSource {
    BuiltinPrompt,
    InlinePrompt,
    PromptFile { path: String },
    Skill { path: String },
}

/// Where the instructions of an angle come from.
pub enum SourceView {
    BuiltinPrompt,
    InlinePrompt,
    PromptFile { path: Seq<char> },
    Skill { path: Seq<char> },
}

impl View for ReviewAngleSource {
    type V = SourceView;

    open spec fn view(&self) -> SourceView {
        match self {
            ReviewAngleSource::BuiltinPrompt => SourceView::BuiltinPrompt,
            ReviewAngleSource::InlinePrompt => SourceView::InlinePrompt,
            ReviewAngleSource::PromptFile { path } => SourceView::PromptFile { path: path@ },
            ReviewAngleSource::Skill { path } => SourceView::Skill { path: path@ },
        }
    }
}

/// The word for a source.
pub open spec fn source_kind(source: SourceView) -> Seq<char> {
    match source {
        SourceView::BuiltinPrompt => "builtin_prompt"@,
        SourceView::InlinePrompt => "prompt"@,
        SourceView::PromptFile { .. } => "prompt_file"@,
        SourceView::Skill { .. } => "skill"@,
    }
}

impl ReviewAngleSource {
    /// The word for the source.
    pub fn kind(&self) -> (r: &'static str)
        ensures
            r@ == source_kind(self@),
    {
        match self {
            ReviewAngleSource::BuiltinPrompt => "builtin_prompt",
            ReviewAngleSource::InlinePrompt => "prompt",
            ReviewAngleSource::PromptFile { .. } => "prompt_file",
            ReviewAngleSource::Skill { .. } => "skill",
        }
    }
}

/// An angle from which a change is reviewed.
#[derive(Debug, PartialEq, Eq)]
pub struct ReviewAngle {
    pub id: String,
    pub name: String,
    pub instructions: String,
    pub reason: String,
    pub source: ReviewAngleSource,
}

/// An angle from which a change is reviewed.
pub struct AngleView {
    pub id: Seq<char>,
    pub name: Seq<char>,
    pub instructions: Seq<char>,
    pub reason: Seq<char>,
    pub source: SourceView,
}

impl View for ReviewAngle {
    type V = AngleView;

    open spec fn view(&self) -> AngleView {
        AngleView {
            id: self.id@,
            name: self.name@,
            instructions: self.instructions@,
            reason: self.reason@,
            source: self.source@,
        }
    }
}

/// What angles say.
pub open spec fn angle_views(s: Seq<ReviewAngle>) -> Seq<AngleView> {
    s.map_values(|a: ReviewAngle| a@)
}

/// The angle of a general review.
pub open spec fn general_angle(instructions: Seq<char>) -> AngleView {
    AngleView {
        id: "general"@,
        name: "General"@,
        instructions,
        reason: "Always run a general correctness review."@,
        source: SourceView::BuiltinPrompt,
    }
}

/// The angle of an adversarial review.
pub open spec fn adversarial_angle(instructions: Seq<char>) -> AngleView {
    AngleView {
        id: "adversarial"@,
        name: "Adversarial"@,
        instructions,
        reason: "Run a skeptical, high-confidence bug-finding pass."@,
        source: SourceView::BuiltinPrompt,
    }
}

/// The angle of a general review, with these instructions.
pub fn general_review_angle(instructions: &str) -> (r: ReviewAngle)
    ensures
        r@ == general_angle(instructions@),
{
    ReviewAngle {
        id: "general".to_owned(),
        name: "General".to_owned(),
        instructions: instructions.to_owned(),
        reason: "Always run a general correctness review.".to_owned(),
        source: ReviewAngleSource::BuiltinPrompt,
    }
}

/// The angle of an adversarial review, with these instructions.
pub fn adversarial_review_angle(instructions: &str) -> (r: ReviewAngle)
    ensures
        r@ == adversarial_angle(instructions@),
{
    ReviewAngle {
        id: "adversarial".to_owned(),
        name: "Adversarial".to_owned(),
        instructions: instructions.to_owned(),
        reason: "Run a skeptical, high-confidence bug-finding pass.".to_owned(),
        source: ReviewAngleSource::BuiltinPrompt,
    }
}

/// The angles that are reviewed where none are configured.
pub fn builtin_review_angles(general: &str, adversarial: &str) -> (r: Vec<ReviewAngle>)
    ensures
        angle_views(r@) == seq![general_angle(general@), adversarial_angle(adversarial@)],
{
    let mut r: Vec<ReviewAngle> = Vec::new();
    r.push(general_review_angle(general));
    r.push(adversarial_review_angle(adversarial));
    proof {
        assert(angle_views(r@) =~= seq![general_angle(general@), adversarial_angle(adversarial@)]);
    }
    r
}

// ---------------------------------------------------------------------------
// Runs of characters
// ---------------------------------------------------------------------------

/// Kinds of characters that make up a word.
#[derive(Debug, Clone, Copy, PartialEq, Eq, Structural)]
pub enum WordKind {
    /// ASCII letters and digits.
    Alphanumeric,
    /// ASCII letters, digits, underscores and colons.
    Value,
    /// All but underscores and hyphens.
    NamePart,
}

/// The character is of the kind.
pub open spec fn of_kind(kind: WordKind, c: char) -> bool {
    match kind {
        WordKind::Alphanumeric => ascii_alphanumeric(c),
        WordKind::Value => ascii_alphanumeric(c) || c == '_' || c == ':',
        WordKind::NamePart => c != '_' && c != '-',
    }
}

/// The first position at or behind `from` with a character of the kind.
pub open spec fn run_start(s: Seq<char>, kind: WordKind, from: int) -> int
    decreases s.len() - from,
{
    if 0 <= from < s.len() && !of_kind(kind, s[from]) {
        run_start(s, kind, from + 1)
    } else {
        from
    }
}

/// The first position at or behind `from` without a character of the kind.
pub open spec fn run_end(s: Seq<char>, kind: WordKind, from: int) -> int
    decreases s.len() - from,
{
    if 0 <= from < s.len() && of_kind(kind, s[from]) {
        run_end(s, kind, from + 1)
    } else {
        from
    }
}

/// The longest runs of characters of the kind from `from` on.
pub open spec fn runs_from(s: Seq<char>, kind: WordKind, from: int) -> Seq<Seq<char>>
    decreases s.len() - from,
{
    let a = run_start(s, kind, from);
    let b = run_end(s, kind, a);
    if 0 <= from <= a < b <= s.len() {
        seq![s.subrange(a, b)] + runs_from(s, kind, b)
    } else {
        Seq::empty()
    }
}

fn is_of_kind(kind: WordKind, c: char) -> (r: bool)
    ensures
        r == of_kind(kind, c),
{
    match kind {
        WordKind::Alphanumeric => is_ascii_alphanumeric(c),
        WordKind::Value => is_ascii_alphanumeric(c) || c == '_' || c == ':',
        WordKind::NamePart => c != '_' && c != '-',
    }
}

/// The longest runs of characters of the kind.
pub fn runs(s: &str, kind: WordKind) -> (r: Vec<String>)
    ensures
        views(r@) == runs_from(s@, kind, 0),
{
    let v = chars_of(s);
    let mut r: Vec<String> = Vec::new();
    let mut from: usize = 0;
    proof {
        assert(views(r@) + runs_from(v@, kind, 0) =~= runs_from(s@, kind, 0));
    }
    while from < v.len()
        invariant
            from <= v@.len(),
            v@ == s@,
            views(r@) + runs_from(v@, kind, from as int) == runs_from(s@, kind, 0),
        decreases v@.len() - from,
    {
        let mut a: usize = from;
        while a < v.len() && !is_of_kind(kind, v[a])
            invariant
                from <= a <= v@.len(),
                run_start(v@, kind, from as int) == run_start(v@, kind, a as int),
            decreases v@.len() - a,
        {
            a += 1;
        }
        let mut b: usize = a;
        while b < v.len() && is_of_kind(kind, v[b])
            invariant
                a <= b <= v@.len(),
                run_end(v@, kind, a as int) == run_end(v@, kind, b as int),
                a < v@.len() && b == a ==> of_kind(kind, v@[a as int]),
            decreases v@.len() - b,
        {
            b += 1;
        }
        if a < b {
            let word = text_of(&v, a, b);
            let ghost before = views(r@);
            r.push(word);
            proof {
                assert(views(r@) =~= before.push(word@));
                assert(views(r@) + runs_from(v@, kind, b as int) =~= before + (seq![word@]
                    + runs_from(v@, kind, b as int)));
            }
            from = b;
        } else {
            proof {
                assert(runs_from(v@, kind, from as int) =~= Seq::empty());
                assert(runs_from(v@, kind, v@.len() as int) =~= Seq::empty());
            }
            from = v.len();
        }
    }
    proof {
        assert(runs_from(v@, kind, from as int) =~= Seq::empty());
        assert(views(r@) =~= runs_from(s@, kind, 0));
    }
    r
}

// ---------------------------------------------------------------------------
// Failures
// ---------------------------------------------------------------------------

/// What kind of failure a review ended with.
#[derive(Debug, Clone, Copy, PartialEq, Eq, Structural)]
pub enum ReviewErrorKind {
    Timeout,
    TransportError,
    EmptyResponse,
    MalformedResponse,
    ProviderError,
}

/// Why the review of an angle failed.
#[derive(Debug, Clone, Copy, PartialEq, Eq, Structural)]
pub enum AngleReviewFailure {
    Timeout,
    Transport,
    EmptyResponse,
    MalformedResponse,
    Provider { retryable: bool },
}

/// The words behind which a status stands.
pub open spec fn status_word(word: Seq<char>) -> bool {
    word == "http"@ || word == "status"@ || word == "error"@
}

/// The status that two words that follow each other tell.
pub open spec fn told_status(word: Seq<char>, number: Seq<char>) -> Option<nat> {
    match parse_unsigned(number, u16::MAX as nat) {
        Some(n) => if status_word(word) && 100 <= n <= 599 {
            Some(n)
        } else {
            None
        },
        None => None,
    }
}

/// The first status that the words from `from` on tell.
pub open spec fn first_status(words: Seq<Seq<char>>, from: int) -> Option<nat>
    decreases words.len() - from,
{
    if from < 0 || from + 1 >= words.len() {
        None
    } else {
        match told_status(words[from], words[from + 1]) {
            Some(n) => Some(n),
            None => first_status(words, from + 1),
        }
    }
}

/// A request that ended with this status may be made again: not after a client error,
/// save for a timeout and for too many requests.
pub open spec fn retryable_status(status: Option<nat>) -> bool {
    match status {
        Some(n) => n == 408 || n == 429 || !(400 <= n <= 499),
        None => true,
    }
}

/// The request that ended with this diagnostic may be made again.
pub open spec fn retryable_diagnostic(diagnostic: Seq<char>) -> bool {
    retryable_status(first_status(runs_from(diagnostic, WordKind::Alphanumeric, 0), 0))
}

/// What a diagnostic of a request says of its failure.
pub open spec fn failure_of(diagnostic: Seq<char>) -> AngleReviewFailure {
    let d = lowercase(diagnostic);
    if has_text(d, "curl: (28)"@) || has_text(d, "timed out"@) {
        AngleReviewFailure::Timeout
    } else if has_text(d, "curl: (6)"@) || has_text(d, "curl: (7)"@) || has_text(
        d,
        "curl: (35)"@,
    ) || has_text(d, "curl: (52)"@) || has_text(d, "curl: (56)"@) {
        AngleReviewFailure::Transport
    } else {
        AngleReviewFailure::Provider { retryable: retryable_diagnostic(d) }
    }
}

/// The kind of a failure.
pub open spec fn kind_of(failure: AngleReviewFailure) -> ReviewErrorKind {
    match failure {
        AngleReviewFailure::Timeout => ReviewErrorKind::Timeout,
        AngleReviewFailure::Transport => ReviewErrorKind::TransportError,
        AngleReviewFailure::EmptyResponse => ReviewErrorKind::EmptyResponse,
        AngleReviewFailure::MalformedResponse => ReviewErrorKind::MalformedResponse,
        AngleReviewFailure::Provider { .. } => ReviewErrorKind::ProviderError,
    }
}

/// A review that failed in this way may be tried again.
pub open spec fn may_retry(failure: AngleReviewFailure) -> bool {
    match failure {
        AngleReviewFailure::Provider { retryable } => retryable,
        _ => true,
    }
}

/// Whether the request that ended with this diagnostic may be made again.
pub fn provider_error_is_retryable(diagnostic: &str) -> (r: bool)
    ensures
        r == retryable_diagnostic(diagnostic@),
{
    let tokens = runs(diagnostic, WordKind::Alphanumeric);
    let ghost all = views(tokens@);
    let mut i: usize = 0;
    proof {
        assert(all.len() == tokens@.len());
    }
    while tokens.len() >= 2 && i < tokens.len() - 1
        invariant
            i <= tokens@.len(),
            all == views(tokens@),
            all.len() == tokens@.len(),
            all == runs_from(diagnostic@, WordKind::Alphanumeric, 0),
            first_status(all, 0) == first_status(all, i as int),
        decreases tokens@.len() - i,
    {
        proof {
            assert(all[i as int] == tokens@[i as int]@);
            assert(all[i + 1] == tokens@[i + 1]@);
        }
        let word = tokens[i].as_str();
        if same_text(word, "http") || same_text(word, "status") || same_text(word, "error") {
            if let Some(n) = parse_up_to(tokens[i + 1].as_str(), u16::MAX as u64) {
                if 100 <= n && n <= 599 {
                    return n == 408 || n == 429 || !(400 <= n && n <= 499);
                }
            }
        }
        i += 1;
    }
    true
}

impl AngleReviewFailure {
    /// What the diagnostic of a request says of its failure.
    pub fn from_request_error(diagnostic: &str) -> (r: Self)
        ensures
            r == failure_of(diagnostic@),
    {
        let lower = to_lowercase(diagnostic);
        let d = lower.as_str();
        if contains(d, "curl: (28)") || contains(d, "timed out") {
            return AngleReviewFailure::Timeout;
        }
        if contains(d, "curl: (6)") || contains(d, "curl: (7)") || contains(d, "curl: (35)")
            || contains(d, "curl: (52)") || contains(d, "curl: (56)") {
            return AngleReviewFailure::Transport;
        }
        AngleReviewFailure::Provider { retryable: provider_error_is_retryable(d) }
    }

    /// The model returned nothing.
    pub fn empty_response() -> (r: Self)
        ensures
            r == AngleReviewFailure::EmptyResponse,
    {
        AngleReviewFailure::EmptyResponse
    }

    /// The model returned something that is no review.
    pub fn malformed_response() -> (r: Self)
        ensures
            r == AngleReviewFailure::MalformedResponse,
    {
        AngleReviewFailure::MalformedResponse
    }

    /// The kind of the failure.
    pub fn kind(&self) -> (r: ReviewErrorKind)
        ensures
            r == kind_of(*self),
    {
        match self {
            AngleReviewFailure::Timeout => ReviewErrorKind::Timeout,
            AngleReviewFailure::Transport => ReviewErrorKind::TransportError,
            AngleReviewFailure::EmptyResponse => ReviewErrorKind::EmptyResponse,
            AngleReviewFailure::MalformedResponse => ReviewErrorKind::MalformedResponse,
            AngleReviewFailure::Provider { .. } => ReviewErrorKind::ProviderError,
        }
    }

    /// Whether the review may be tried again.
    pub fn retryable(&self) -> (r: bool)
        ensures
            r == may_retry(*self),
    {
        match self {
            AngleReviewFailure::Provider { retryable } => *retryable,
            _ => true,
        }
    }
}

/// A client error other than a timeout or too many requests is the only one that is not
/// tried again.
pub proof fn law_retries(n: nat)
    requires
        100 <= n <= 599,
    ensures
        !retryable_status(Some(n)) <==> 400 <= n <= 499 && n != 408 && n != 429,
{
}

// ---------------------------------------------------------------------------
// Time
// ---------------------------------------------------------------------------

/// How long the review of an angle may take, all in nanoseconds: no longer than an angle
/// may, and no longer than is left. None where no time is left.
pub open spec fn angle_budget(angle_timeout: u128, total_timeout: u128, elapsed: u128) -> Option<
    u128,
> {
    if elapsed >= total_timeout {
        None
    } else if total_timeout - elapsed <= angle_timeout {
        Some((total_timeout - elapsed) as u128)
    } else {
        Some(angle_timeout)
    }
}

/// How long the review of an angle may take, all in nanoseconds.
pub fn remaining_angle_budget(
    angle_timeout: u128,
    total_timeout: u128,
    elapsed: u128,
) -> (r: Option<u128>)
    ensures
        r == angle_budget(angle_timeout, total_timeout, elapsed),
{
    if elapsed >= total_timeout {
        None
    } else {
        let remaining: u128 = total_timeout - elapsed;
        if remaining <= angle_timeout {
            Some(remaining)
        } else {
            Some(angle_timeout)
        }
    }
}

/// An angle never gets more time than it may take or than is left.
pub proof fn law_angle_budget(angle_timeout: u128, total_timeout: u128, elapsed: u128)
    ensures
        angle_budget(angle_timeout, total_timeout, elapsed) matches Some(t) ==> t
            <= angle_timeout && elapsed + t <= total_timeout,
        angle_budget(angle_timeout, total_timeout, elapsed) is None <==> elapsed
            >= total_timeout,
{
}

// ---------------------------------------------------------------------------
// What holds of it
// ---------------------------------------------------------------------------

/// Runs of characters of a kind: one before a character of another kind is the first of
/// them, and such a character in front changes nothing.
pub proof fn law_runs(kind: WordKind, word: Seq<char>, other: char, rest: Seq<char>)
    requires
        word.len() > 0,
        forall|j: int| 0 <= j < word.len() ==> of_kind(kind, #[trigger] word[j]),
        !of_kind(kind, other),
    ensures
        runs_from(Seq::empty(), kind, 0).len() == 0,
        runs_from(word, kind, 0) == seq![word],
        runs_from(word + seq![other] + rest, kind, 0) == seq![word] + runs_from(rest, kind, 0),
        runs_from(seq![other] + rest, kind, 0) == runs_from(rest, kind, 0),
{
    let n = word.len() as int;
    let s = word + seq![other] + rest;
    assert(s[0] == word[0]);
    assert forall|j: int| 0 <= j < n implies of_kind(kind, #[trigger] s[j]) by {
        assert(s[j] == word[j]);
    }
    assert(s[n] == other);
    lemma_run_ends_at(s, kind, 0, n);
    lemma_run_ends_at(word, kind, 0, n);
    assert(of_kind(kind, s[0]));
    assert(of_kind(kind, word[0]));
    assert(s.subrange(0, n) =~= word);
    assert(word.subrange(0, n) =~= word);
    lemma_runs_shifted(s, rest, kind, n + 1, 0);
    lemma_runs_over_other(s, kind, n);
    assert(runs_from(word, kind, n) =~= Seq::empty());
    assert(runs_from(word, kind, 0) =~= seq![word]);
    let t = seq![other] + rest;
    assert(t[0] == other);
    lemma_runs_shifted(t, rest, kind, 1, 0);
    lemma_runs_over_other(t, kind, 0);
}

proof fn lemma_run_bounds(s: Seq<char>, kind: WordKind, from: int)
    requires
        0 <= from <= s.len(),
    ensures
        from <= run_start(s, kind, from) <= s.len(),
        from <= run_end(s, kind, from) <= s.len(),
    decreases s.len() - from,
{
    if from < s.len() {
        lemma_run_bounds(s, kind, from + 1);
    }
}

proof fn lemma_runs_over_other(s: Seq<char>, kind: WordKind, from: int)
    requires
        0 <= from < s.len(),
        !of_kind(kind, s[from]),
    ensures
        runs_from(s, kind, from) == runs_from(s, kind, from + 1),
{
    lemma_run_bounds(s, kind, from + 1);
}

proof fn lemma_run_ends_at(s: Seq<char>, kind: WordKind, from: int, to: int)
    requires
        0 <= from <= to <= s.len(),
        forall|j: int| from <= j < to ==> of_kind(kind, #[trigger] s[j]),
        to < s.len() ==> !of_kind(kind, s[to]),
    ensures
        run_end(s, kind, from) == to,
    decreases to - from,
{
    if from < to {
        assert(of_kind(kind, s[from]));
        lemma_run_ends_at(s, kind, from + 1, to);
    }
}

proof fn lemma_run_bounds_shifted(s: Seq<char>, rest: Seq<char>, kind: WordKind, by: int, from: int)
    requires
        0 <= from <= rest.len(),
        0 <= by,
        s.len() == by + rest.len(),
        forall|j: int| 0 <= j < rest.len() ==> s[by + j] == rest[j],
    ensures
        run_end(s, kind, by + from) == by + run_end(rest, kind, from),
        run_start(s, kind, by + from) == by + run_start(rest, kind, from),
    decreases rest.len() - from,
{
    if from < rest.len() {
        assert(s[by + from] == rest[from]);
        lemma_run_bounds_shifted(s, rest, kind, by, from + 1);
    }
}

proof fn lemma_runs_shifted(s: Seq<char>, rest: Seq<char>, kind: WordKind, by: int, from: int)
    requires
        0 <= from <= rest.len(),
        0 <= by,
        s.len() == by + rest.len(),
        forall|j: int| 0 <= j < rest.len() ==> s[by + j] == rest[j],
    ensures
        runs_from(s, kind, by + from) == runs_from(rest, kind, from),
    decreases rest.len() - from,
{
    lemma_run_bounds(rest, kind, from);
    lemma_run_bounds_shifted(s, rest, kind, by, from);
    let a = run_start(rest, kind, from);
    lemma_run_bounds(rest, kind, a);
    lemma_run_bounds_shifted(s, rest, kind, by, a);
    let b = run_end(rest, kind, a);
    assert(s.subrange(by + a, by + b) =~= rest.subrange(a, b));
    if from <= a < b <= rest.len() {
        lemma_runs_shifted(s, rest, kind, by, b);
    }
}

/// Which characters a word of each kind is made of.
pub proof fn law_kinds_of_words(c: char)
    ensures
        of_kind(WordKind::Alphanumeric, c) <==> ('0' <= c <= '9' || 'a' <= c <= 'z' || 'A' <= c
            <= 'Z'),
        of_kind(WordKind::Value, c) <==> ('0' <= c <= '9' || 'a' <= c <= 'z' || 'A' <= c <= 'Z'
            || c == '_' || c == ':'),
        of_kind(WordKind::NamePart, c) <==> c != '_' && c != '-',
{
}

/// The status of a request is the first number from 100 to 599 behind a word for it.
pub proof fn law_the_first_status_is_told(words: Seq<Seq<char>>, i: int, n: nat)
    requires
        0 <= i,
        i + 1 < words.len(),
        words[i] == "http"@ || words[i] == "status"@ || words[i] == "error"@,
        words[i + 1] == decimal_of(n),
        100 <= n <= 599,
        forall|j: int| 0 <= j < i ==> told_status(#[trigger] words[j], words[j + 1]) is None,
    ensures
        first_status(words, 0) == Some(n),
{
    crate::number::law_decimal_is_read_back(n, u16::MAX as nat);
    lemma_first_status(words, 0, i, n);
}

proof fn lemma_first_status(words: Seq<Seq<char>>, from: int, i: int, n: nat)
    requires
        0 <= from <= i,
        i + 1 < words.len(),
        told_status(words[i], words[i + 1]) == Some(n),
        forall|j: int| 0 <= j < i ==> told_status(#[trigger] words[j], words[j + 1]) is None,
    ensures
        first_status(words, from) == Some(n),
    decreases i - from,
{
    if from < i {
        assert(told_status(words[from], words[from + 1]) is None);
        lemma_first_status(words, from + 1, i, n);
    }
}

/// A number is the status only behind a word for it, and only from 100 to 599.
pub proof fn law_told_statuses(word: Seq<char>, number: Seq<char>)
    ensures
        told_status(word, number) matches Some(n) ==> (word == "http"@ || word == "status"@ || word
            == "error"@) && 100 <= n <= 599 && parse_unsigned(number, 65535) == Some(n),
        retryable_status(None),
{
}

/// What went wrong with a request: a time that ran out before a connection that failed, and
/// that before what the provider says.
pub proof fn law_failures_of_requests(diagnostic: Seq<char>)
    ensures
        ({
            let d = lowercase(diagnostic);
            let late = has_text(d, "timed out"@) || has_text(d, "curl: (28)"@);
            let cut = has_text(d, "curl: (6)"@) || has_text(d, "curl: (7)"@) || has_text(
                d,
                "curl: (35)"@,
            ) || has_text(d, "curl: (52)"@) || has_text(d, "curl: (56)"@);
            &&& late ==> failure_of(diagnostic) == AngleReviewFailure::Timeout
            &&& !late && cut ==> failure_of(diagnostic) == AngleReviewFailure::Transport
            &&& !late && !cut ==> (failure_of(diagnostic) matches AngleReviewFailure::Provider {
                retryable,
            } && retryable == retryable_diagnostic(d))
        }),
        forall|failure: AngleReviewFailure|
            #![trigger may_retry(failure)]
            !(failure is Provider) ==> may_retry(failure),
        may_retry(AngleReviewFailure::Provider { retryable: true }),
        !may_retry(AngleReviewFailure::Provider { retryable: false }),
        kind_of(AngleReviewFailure::Timeout) == ReviewErrorKind::Timeout,
        kind_of(AngleReviewFailure::Transport) == ReviewErrorKind::TransportError,
        kind_of(AngleReviewFailure::EmptyResponse) == ReviewErrorKind::EmptyResponse,
        kind_of(AngleReviewFailure::MalformedResponse) == ReviewErrorKind::MalformedResponse,
        kind_of(AngleReviewFailure::Provider { retryable: true })
            == ReviewErrorKind::ProviderError,
{
}

/// An angle has all of its own time while enough is left in total, and then what is left.
pub proof fn law_angles_have_the_time_that_is_left(
    angle_timeout: u128,
    total_timeout: u128,
    elapsed: u128,
)
    requires
        elapsed < total_timeout,
    ensures
        elapsed + angle_timeout <= total_timeout ==> angle_budget(
            angle_timeout,
            total_timeout,
            elapsed,
        ) == Some(angle_timeout),
        elapsed + angle_timeout > total_timeout ==> angle_budget(
            angle_timeout,
            total_timeout,
            elapsed,
        ) == Some((total_timeout - elapsed) as u128),
{
}

} // verus!
