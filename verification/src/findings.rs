//! Findings of a review: their severity, their identifiers and the score that they leave.
use vstd::prelude::*;

use crate::diff::{evidence_views, EvidenceView, FindingEvidence};
use crate::list::holds;
use crate::number::{decimal, decimal_of};
use crate::status::ReviewStatus;
use crate::text::{
    char_count, concat2, concat3, lowercase, opt_view, same_text, starts_with, to_lowercase, views,
};

verus! {

/// How many characters an identifier that was made up may have.
pub const MAX_GENERATED_FINDING_ID_CHARS: usize = 256;

/// The score of a review without blockers.
pub const DEFAULT_TARGET_SCORE: u8 = 5;

/// How bad a finding is, from the worst to the least.
#[derive(Debug, Clone, Copy, PartialEq, Eq, Structural)]
pub enum Severity {
    P0,
    P1,
    P2,
    P3,
    P4,
}

/// The severity that a text names, whatever its case.
pub open spec fn severity_named(text: Seq<char>) -> Option<Severity> {
    let t = lowercase(text);
    if t == "p0"@ {
        Some(Severity::P0)
    } else if t == "p1"@ {
        Some(Severity::P1)
    } else if t == "p2"@ {
        Some(Severity::P2)
    } else if t == "p3"@ {
        Some(Severity::P3)
    } else if t == "p4"@ {
        Some(Severity::P4)
    } else {
        None
    }
}

/// The best score that a blocker of this severity leaves.
pub open spec fn score_ceiling(severity: Severity) -> u8 {
    match severity {
        Severity::P0 => 1,
        Severity::P1 => 2,
        Severity::P2 => 3,
        Severity::P3 => 4,
        Severity::P4 => 5,
    }
}

impl Severity {
    /// The severity that a text names, whatever its case.
    pub fn parse(text: &str) -> (r: Option<Severity>)
        ensures
            r == severity_named(text@),
    {
        let t = to_lowercase(text);
        let t = t.as_str();
        if same_text(t, "p0") {
            Some(Severity::P0)
        } else if same_text(t, "p1") {
            Some(Severity::P1)
        } else if same_text(t, "p2") {
            Some(Severity::P2)
        } else if same_text(t, "p3") {
            Some(Severity::P3)
        } else if same_text(t, "p4") {
            Some(Severity::P4)
        } else {
            None
        }
    }

    /// The best score that a blocker of this severity leaves.
    pub fn score_ceiling(self) -> (r: u8)
        ensures
            r == score_ceiling(self),
    {
        match self {
            Severity::P0 => 1,
            Severity::P1 => 2,
            Severity::P2 => 3,
            Severity::P3 => 4,
            Severity::P4 => 5,
        }
    }
}

/// What a finding is about.
#[derive(Debug, Clone, Copy, PartialEq, Eq, Structural)]
pub enum FindingClassification {
    Defect,
    Security,
    ReliabilityRisk,
    ContractAmbiguity,
    Suggestion,
}

/// What became of the evidence of a finding.
#[derive(Debug, Clone, Copy, PartialEq, Eq, Structural)]
pub enum EvidenceGateResult {
    Passed,
    Failed,
    NotRequired,
}

/// What became of a finding that was tracked.
#[derive(Debug, Clone, Copy, PartialEq, Eq, Structural)]
pub enum FindingDisposition {
    StillOpen,
    Fixed,
    RejectedWithEvidence,
    AlreadyImplemented,
    IntentionalContract,
    Disputed,
}

/// What a finding claims, and what it rests on.
#[derive(Debug, PartialEq, Eq)]
pub struct FindingGrounding {
    pub semantic_key: String,
    pub claim: String,
    pub causal_path: String,
    pub test_assessment: String,
    pub evidence: Vec<FindingEvidence>,
    pub related_tests: Vec<FindingEvidence>,
    pub reproduction: Option<String>,
    pub proof_text: Option<String>,
    pub resolution_disposition: Option<FindingDisposition>,
    pub resolution_evidence_summary: Option<String>,
}

/// What a finding claims, and what it rests on.
pub struct GroundingView {
    pub semantic_key: Seq<char>,
    pub claim: Seq<char>,
    pub causal_path: Seq<char>,
    pub test_assessment: Seq<char>,
    pub evidence: Seq<EvidenceView>,
    pub related_tests: Seq<EvidenceView>,
    pub reproduction: Option<Seq<char>>,
    pub proof_text: Option<Seq<char>>,
    pub resolution_disposition: Option<FindingDisposition>,
    pub resolution_evidence_summary: Option<Seq<char>>,
}

impl View for FindingGrounding {
    type V = GroundingView;

    open spec fn view(&self) -> GroundingView {
        GroundingView {
            semantic_key: self.semantic_key@,
            claim: self.claim@,
            causal_path: self.causal_path@,
            test_assessment: self.test_assessment@,
            evidence: evidence_views(self.evidence@),
            related_tests: evidence_views(self.related_tests@),
            reproduction: opt_view(self.reproduction),
            proof_text: opt_view(self.proof_text),
            resolution_disposition: self.resolution_disposition,
            resolution_evidence_summary: opt_view(self.resolution_evidence_summary),
        }
    }
}

/// A finding, as far as decisions depend on it.
#[derive(Debug, PartialEq, Eq)]
pub struct Finding {
    pub id: String,
    pub angle_id: Option<String>,
    pub severity: Severity,
    pub classification: FindingClassification,
    /// The policy makes the finding a blocker.
    pub blocking: bool,
    /// The policy asks for evidence before the finding blocks.
    pub requires_evidence_gate: bool,
    /// The confidence is below four fifths.
    pub uncertain: bool,
    pub grounding: Option<FindingGrounding>,
    pub file: Option<String>,
    pub line: Option<u32>,
    pub detail: Option<String>,
    /// The identity of the finding across reviews.
    pub semantic_fingerprint: String,
}

/// What a finding says.
pub struct FindingView {
    pub id: Seq<char>,
    pub angle_id: Option<Seq<char>>,
    pub severity: Severity,
    pub classification: FindingClassification,
    pub blocking: bool,
    pub requires_evidence_gate: bool,
    pub uncertain: bool,
    pub grounding: Option<GroundingView>,
    pub file: Option<Seq<char>>,
    pub line: Option<u32>,
    pub detail: Option<Seq<char>>,
    pub semantic_fingerprint: Seq<char>,
}

/// The view of a grounding that there may be.
pub open spec fn opt_grounding_view(g: Option<FindingGrounding>) -> Option<GroundingView> {
    match g {
        Some(x) => Some(x@),
        None => None,
    }
}

impl View for Finding {
    type V = FindingView;

    open spec fn view(&self) -> FindingView {
        FindingView {
            id: self.id@,
            angle_id: opt_view(self.angle_id),
            severity: self.severity,
            classification: self.classification,
            blocking: self.blocking,
            requires_evidence_gate: self.requires_evidence_gate,
            uncertain: self.uncertain,
            grounding: opt_grounding_view(self.grounding),
            file: opt_view(self.file),
            line: self.line,
            detail: opt_view(self.detail),
            semantic_fingerprint: self.semantic_fingerprint@,
        }
    }
}

/// What findings say.
pub open spec fn finding_views(s: Seq<Finding>) -> Seq<FindingView> {
    s.map_values(|f: Finding| f@)
}

// ---------------------------------------------------------------------------
// Scores
// ---------------------------------------------------------------------------

/// The score that findings leave: the lowest that a blocker among them allows.
pub open spec fn score_of(findings: Seq<FindingView>) -> u8
    decreases findings.len(),
{
    if findings.len() == 0 {
        DEFAULT_TARGET_SCORE
    } else {
        let rest = score_of(findings.drop_last());
        let f = findings.last();
        if f.blocking && score_ceiling(f.severity) < rest {
            score_ceiling(f.severity)
        } else {
            rest
        }
    }
}

/// The outcome that a score stands for.
pub open spec fn status_of_score(score: u8) -> ReviewStatus {
    if score >= DEFAULT_TARGET_SCORE {
        ReviewStatus::Passed
    } else {
        ReviewStatus::NeedsChanges
    }
}

/// How many of the findings are blockers.
pub open spec fn blockers(findings: Seq<FindingView>) -> nat
    decreases findings.len(),
{
    if findings.len() == 0 {
        0
    } else {
        blockers(findings.drop_last()) + if findings.last().blocking {
            1nat
        } else {
            0nat
        }
    }
}

/// A score is between one and five; it is no better than any blocker allows, and without
/// blockers it is five.
pub proof fn law_scores(findings: Seq<FindingView>)
    ensures
        1 <= score_of(findings) <= DEFAULT_TARGET_SCORE,
        forall|i: int|
            0 <= i < findings.len() && (#[trigger] findings[i]).blocking ==> score_of(findings)
                <= score_ceiling(findings[i].severity),
        blockers(findings) == 0 ==> score_of(findings) == DEFAULT_TARGET_SCORE,
        score_of(findings) < DEFAULT_TARGET_SCORE ==> blockers(findings) > 0,
    decreases findings.len(),
{
    if findings.len() > 0 {
        law_scores(findings.drop_last());
        assert forall|i: int|
            0 <= i < findings.len() && (#[trigger] findings[i]).blocking implies score_of(findings)
            <= score_ceiling(findings[i].severity) by {
            if i < findings.len() - 1 {
                assert(findings.drop_last()[i].blocking);
            }
        }
    }
}

/// The score that findings leave.
pub fn compute_score(findings: &Vec<Finding>) -> (r: u8)
    ensures
        r == score_of(finding_views(findings@)),
{
    let ghost all = finding_views(findings@);
    let mut score: u8 = DEFAULT_TARGET_SCORE;
    let mut i: usize = 0;
    while i < findings.len()
        invariant
            i <= findings@.len(),
            all == finding_views(findings@),
            score == score_of(all.take(i as int)),
        decreases findings@.len() - i,
    {
        proof {
            assert(all.take(i + 1).drop_last() =~= all.take(i as int));
            assert(all.take(i + 1).last() == findings@[i as int]@);
        }
        let ceiling: u8 = findings[i].severity.score_ceiling();
        if findings[i].blocking && ceiling < score {
            score = ceiling;
        }
        i += 1;
    }
    proof {
        assert(all.take(all.len() as int) =~= all);
    }
    score
}

/// The outcome that a score stands for.
pub fn status_for_score(score: u8) -> (r: ReviewStatus)
    ensures
        r == status_of_score(score),
{
    if score >= DEFAULT_TARGET_SCORE {
        ReviewStatus::Passed
    } else {
        ReviewStatus::NeedsChanges
    }
}

/// How many of the findings are blockers.
pub fn count_blockers(findings: &Vec<Finding>) -> (r: usize)
    ensures
        r == blockers(finding_views(findings@)),
{
    let ghost all = finding_views(findings@);
    let mut n: usize = 0;
    let mut i: usize = 0;
    while i < findings.len()
        invariant
            i <= findings@.len(),
            n <= i,
            all == finding_views(findings@),
            n == blockers(all.take(i as int)),
        decreases findings@.len() - i,
    {
        proof {
            assert(all.take(i + 1).drop_last() =~= all.take(i as int));
            assert(all.take(i + 1).last() == findings@[i as int]@);
        }
        if findings[i].blocking {
            n += 1;
        }
        i += 1;
    }
    proof {
        assert(all.take(all.len() as int) =~= all);
    }
    n
}

// ---------------------------------------------------------------------------
// Identifiers
// ---------------------------------------------------------------------------

/// What the hash starts with.
pub const HASH_OFFSET: u64 = 0xcbf2_9ce4_8422_2325;

/// What the hash is multiplied with.
pub const HASH_PRIME: u64 = 0x0000_0100_0000_01b3;

/// The FNV-1a hash of bytes.
pub open spec fn fnv(bytes: Seq<u8>) -> u64
    decreases bytes.len(),
{
    if bytes.len() == 0 {
        HASH_OFFSET
    } else {
        let mixed = fnv(bytes.drop_last()) ^ (bytes.last() as u64);
        ((mixed * HASH_PRIME) % 0x1_0000_0000_0000_0000) as u64
    }
}

/// The hexadecimal digit that stands for `n`.
pub open spec fn hex_char(n: int) -> char {
    if n < 10 {
        crate::number::digit_char(n)
    } else if n == 10 {
        'a'
    } else if n == 11 {
        'b'
    } else if n == 12 {
        'c'
    } else if n == 13 {
        'd'
    } else if n == 14 {
        'e'
    } else {
        'f'
    }
}

/// The last `digits` hexadecimal digits of a number.
pub open spec fn hex_of(n: nat, digits: nat) -> Seq<char>
    decreases digits,
{
    if digits == 0 {
        Seq::empty()
    } else {
        hex_of(n / 16, (digits - 1) as nat).push(hex_char((n % 16) as int))
    }
}

/// The hash of a text as it stands in an identifier.
pub open spec fn id_hash(text: Seq<char>) -> Seq<char> {
    hex_of(fnv(vstd::utf8::encode_utf8(text)) as nat, 16)
}

fn hex_digit(n: u64) -> (r: char)
    requires
        n < 16,
    ensures
        r == hex_char(n as int),
{
    if n == 0 {
        '0'
    } else if n == 1 {
        '1'
    } else if n == 2 {
        '2'
    } else if n == 3 {
        '3'
    } else if n == 4 {
        '4'
    } else if n == 5 {
        '5'
    } else if n == 6 {
        '6'
    } else if n == 7 {
        '7'
    } else if n == 8 {
        '8'
    } else if n == 9 {
        '9'
    } else if n == 10 {
        'a'
    } else if n == 11 {
        'b'
    } else if n == 12 {
        'c'
    } else if n == 13 {
        'd'
    } else if n == 14 {
        'e'
    } else {
        'f'
    }
}

/// The last `digits` hexadecimal digits of a number.
pub fn hexadecimal(n: u64, digits: u32) -> (r: String)
    ensures
        r@ == hex_of(n as nat, digits as nat),
    decreases digits,
{
    if digits == 0 {
        String::new()
    } else {
        let mut r = hexadecimal(n / 16, digits - 1);
        r.push(hex_digit(n % 16));
        r
    }
}

/// The hash of a text as it stands in an identifier.
pub fn stable_id_hash(value: &str) -> (r: String)
    ensures
        r@ == id_hash(value@),
{
    let bytes = value.as_bytes();
    let mut hash: u64 = HASH_OFFSET;
    let mut i: usize = 0;
    while i < bytes.len()
        invariant
            i <= bytes@.len(),
            bytes@ == vstd::utf8::encode_utf8(value@),
            hash == fnv(bytes@.take(i as int)),
        decreases bytes@.len() - i,
    {
        proof {
            assert(bytes@.take(i + 1).drop_last() =~= bytes@.take(i as int));
            assert(bytes@.take(i + 1).last() == bytes@[i as int]);
        }
        hash = hash ^ (bytes[i] as u64);
        hash = hash.wrapping_mul(HASH_PRIME);
        i += 1;
    }
    proof {
        assert(bytes@.take(bytes@.len() as int) =~= bytes@);
    }
    hexadecimal(hash, 16)
}

/// An identifier that is not too long: a hash stands for a longer one.
pub open spec fn bounded_id(angle_id: Seq<char>, id: Seq<char>) -> Seq<char> {
    if id.len() <= MAX_GENERATED_FINDING_ID_CHARS {
        id
    } else {
        angle_id + ":finding:"@ + id_hash(id)
    }
}

/// The identifier of a finding with its angle before it.
pub open spec fn prefixed_id(angle_id: Seq<char>, finding_id: Seq<char>) -> Seq<char> {
    let prefix = angle_id + ":"@;
    bounded_id(
        angle_id,
        if prefix.is_prefix_of(finding_id) {
            finding_id
        } else {
            prefix + finding_id
        },
    )
}

/// An identifier that is not too long: a hash stands for a longer one.
pub fn bounded_generated_finding_id(angle_id: &str, id: &str) -> (r: String)
    ensures
        r@ == bounded_id(angle_id@, id@),
{
    if char_count(id) <= MAX_GENERATED_FINDING_ID_CHARS {
        return id.to_owned();
    }
    let hash = stable_id_hash(id);
    concat3(angle_id, ":finding:", hash.as_str())
}

/// The identifier of a finding with its angle before it.
pub fn prefixed_angle_finding_id(angle_id: &str, finding_id: &str) -> (r: String)
    ensures
        r@ == prefixed_id(angle_id@, finding_id@),
{
    let prefix = concat2(angle_id, ":");
    if starts_with(finding_id, prefix.as_str()) {
        bounded_generated_finding_id(angle_id, finding_id)
    } else {
        let id = concat2(prefix.as_str(), finding_id);
        bounded_generated_finding_id(angle_id, id.as_str())
    }
}

/// The largest number that tells identifiers apart.
pub const MAX_SUFFIX: u64 = 2147483647;

/// The identifier with a number behind it.
pub open spec fn suffixed_id(angle_id: Seq<char>, base: Seq<char>, n: int) -> Seq<char> {
    bounded_id(angle_id, base + "~"@ + decimal_of(n as nat))
}

/// The first number from `from` on that makes the identifier a new one.
pub open spec fn free_id(
    angle_id: Seq<char>,
    base: Seq<char>,
    seen: Seq<Seq<char>>,
    from: int,
) -> Option<Seq<char>>
    decreases MAX_SUFFIX + 1 - from,
{
    if from > MAX_SUFFIX {
        None
    } else if !seen.contains(suffixed_id(angle_id, base, from)) {
        Some(suffixed_id(angle_id, base, from))
    } else {
        free_id(angle_id, base, seen, from + 1)
    }
}

/// An identifier that is none of those seen, or none where all numbers are taken.
pub open spec fn unique_id(
    angle_id: Seq<char>,
    finding_id: Seq<char>,
    seen: Seq<Seq<char>>,
) -> Option<Seq<char>> {
    let base = prefixed_id(angle_id, finding_id);
    if !seen.contains(base) {
        Some(base)
    } else {
        free_id(angle_id, base, seen, 2)
    }
}

/// A unique identifier is none of those seen.
pub proof fn law_unique_ids_are_new(
    angle_id: Seq<char>,
    finding_id: Seq<char>,
    seen: Seq<Seq<char>>,
)
    ensures
        unique_id(angle_id, finding_id, seen) matches Some(id) ==> !seen.contains(id),
{
    lemma_free_id_is_new(angle_id, prefixed_id(angle_id, finding_id), seen, 2);
}

proof fn lemma_free_id_is_new(
    angle_id: Seq<char>,
    base: Seq<char>,
    seen: Seq<Seq<char>>,
    from: int,
)
    ensures
        free_id(angle_id, base, seen, from) matches Some(id) ==> !seen.contains(id),
    decreases MAX_SUFFIX + 1 - from,
{
    if from <= MAX_SUFFIX && seen.contains(suffixed_id(angle_id, base, from)) {
        lemma_free_id_is_new(angle_id, base, seen, from + 1);
    }
}

fn suffixed_finding_id(angle_id: &str, base: &str, n: u64) -> (r: String)
    ensures
        r@ == suffixed_id(angle_id@, base@, n as int),
{
    let number = decimal(n);
    let long = concat3(base, "~", number.as_str());
    bounded_generated_finding_id(angle_id, long.as_str())
}

/// An identifier that is none of those seen, which it is then one of.
pub fn unique_prefixed_angle_finding_id(
    angle_id: &str,
    finding_id: &str,
    seen_finding_ids: &mut Vec<String>,
) -> (r: Option<String>)
    ensures
        opt_view(r) == unique_id(angle_id@, finding_id@, views(old(seen_finding_ids)@)),
        views(final(seen_finding_ids)@) == match r {
            Some(id) => views(old(seen_finding_ids)@).push(id@),
            None => views(old(seen_finding_ids)@),
        },
{
    let ghost before = views(seen_finding_ids@);
    let base = prefixed_angle_finding_id(angle_id, finding_id);
    if !holds(seen_finding_ids, base.as_str()) {
        seen_finding_ids.push(base.clone());
        proof {
            assert(views(seen_finding_ids@) =~= before.push(base@));
        }
        return Some(base);
    }
    let mut suffix: u64 = 2;
    while suffix <= MAX_SUFFIX
        invariant
            2 <= suffix <= MAX_SUFFIX + 1,
            before == views(seen_finding_ids@),
            before == views(old(seen_finding_ids)@),
            base@ == prefixed_id(angle_id@, finding_id@),
            before.contains(base@),
            unique_id(angle_id@, finding_id@, before) == free_id(
                angle_id@,
                base@,
                before,
                suffix as int,
            ),
        decreases MAX_SUFFIX + 1 - suffix,
    {
        let candidate = suffixed_finding_id(angle_id, base.as_str(), suffix);
        if !holds(seen_finding_ids, candidate.as_str()) {
            seen_finding_ids.push(candidate.clone());
            proof {
                assert(views(seen_finding_ids@) =~= before.push(candidate@));
            }
            return Some(candidate);
        }
        suffix += 1;
    }
    None
}

/// Whatever the identifier of a finding, the one that is made up of it is bounded.
pub proof fn law_generated_ids_are_bounded(angle_id: Seq<char>, id: Seq<char>)
    requires
        angle_id.len() <= MAX_GENERATED_FINDING_ID_CHARS - 25,
    ensures
        bounded_id(angle_id, id).len() <= MAX_GENERATED_FINDING_ID_CHARS,
{
    lemma_hex_len(fnv(vstd::utf8::encode_utf8(id)) as nat, 16);
    reveal_strlit(":finding:");
}

proof fn lemma_hex_len(n: nat, digits: nat)
    ensures
        hex_of(n, digits).len() == digits,
    decreases digits,
{
    if digits > 0 {
        lemma_hex_len(n / 16, (digits - 1) as nat);
    }
}

// ---------------------------------------------------------------------------
// What holds of it
// ---------------------------------------------------------------------------

/// The worst blocker decides the score: there is one whose ceiling is the score, unless
/// nothing blocks and the score is the target. What does not block changes nothing.
pub proof fn law_the_worst_blocker_decides(findings: Seq<FindingView>)
    ensures
        score_of(findings) == 5 || exists|i: int|
            0 <= i < findings.len() && (#[trigger] findings[i]).blocking && score_of(findings)
                == score_ceiling(findings[i].severity),
        (forall|i: int| 0 <= i < findings.len() ==> !(#[trigger] findings[i]).blocking)
            ==> score_of(findings) == 5 && blockers(findings) == 0,
    decreases findings.len(),
{
    if findings.len() > 0 {
        let rest = findings.drop_last();
        law_the_worst_blocker_decides(rest);
        assert(findings[findings.len() - 1] == findings.last());
        if forall|i: int| 0 <= i < findings.len() ==> !(#[trigger] findings[i]).blocking {
            assert forall|i: int| 0 <= i < rest.len() implies !(#[trigger] rest[i]).blocking by {
                assert(rest[i] == findings[i]);
            }
        }
        if score_of(rest) != 5 {
            let i = choose|i: int|
                0 <= i < rest.len() && (#[trigger] rest[i]).blocking && score_of(rest)
                    == score_ceiling(rest[i].severity);
            assert(findings[i] == rest[i]);
        }
    }
}

/// A graver finding leaves a lower score, and the least grave leaves the target.
pub proof fn law_ceilings()
    ensures
        score_ceiling(Severity::P0) == 1,
        score_ceiling(Severity::P1) == 2,
        score_ceiling(Severity::P2) == 3,
        score_ceiling(Severity::P3) == 4,
        score_ceiling(Severity::P4) == 5,
        forall|score: u8|
            (#[trigger] status_of_score(score) == ReviewStatus::Passed <==> score >= 5) && (
            status_of_score(score) == ReviewStatus::NeedsChanges <==> score < 5),
{
}

/// Findings block one by one.
pub proof fn law_blockers_are_counted(a: Seq<FindingView>, b: Seq<FindingView>, f: FindingView)
    ensures
        blockers(a + b) == blockers(a) + blockers(b),
        f.blocking ==> blockers(seq![f]) == 1,
        !f.blocking ==> blockers(seq![f]) == 0,
        score_of(a + b) == if score_of(a) <= score_of(b) {
            score_of(a)
        } else {
            score_of(b)
        },
    decreases b.len(),
{
    assert(seq![f].drop_last() =~= Seq::empty());
    reveal_with_fuel(blockers, 2);
    if b.len() == 0 {
        assert(a + b =~= a);
        law_scores(a);
    } else {
        assert((a + b).drop_last() =~= a + b.drop_last());
        assert((a + b).last() == b.last());
        law_blockers_are_counted(a, b.drop_last(), f);
    }
}

/// A severity is named by its letter and its number, in either case; nothing else names
/// one.
pub proof fn law_severities_are_named(text: Seq<char>)
    ensures
        severity_named(text) is Some <==> text.len() == 2 && (text[0] == 'p' || text[0] == 'P')
            && '0' <= text[1] <= '4',
        severity_named(text) == Some(Severity::P0) ==> text[1] == '0',
        severity_named(text) == Some(Severity::P1) ==> text[1] == '1',
        severity_named(text) == Some(Severity::P2) ==> text[1] == '2',
        severity_named(text) == Some(Severity::P3) ==> text[1] == '3',
        severity_named(text) == Some(Severity::P4) ==> text[1] == '4',
{
    reveal_strlit("p0");
    reveal_strlit("p1");
    reveal_strlit("p2");
    reveal_strlit("p3");
    reveal_strlit("p4");
    let t = lowercase(text);
    assert(t.len() == text.len());
    if text.len() == 2 {
        crate::text::law_lower_case(text, 0);
        crate::text::law_lower_case(text, 1);
        if (text[0] == 'p' || text[0] == 'P') && '0' <= text[1] <= '4' {
            assert(t[0] == 'p');
            assert(t[1] == text[1]);
            assert(t =~= "p0"@ || t =~= "p1"@ || t =~= "p2"@ || t =~= "p3"@ || t =~= "p4"@);
        }
    }
    if severity_named(text) is Some {
        assert(t[0] == 'p');
        assert('0' <= t[1] <= '4');
    }
}

/// An identifier that fits carries the angle in front once: it is put there where it is
/// missing, and left where it stands.
pub proof fn law_ids_carry_their_angle(angle_id: Seq<char>, id: Seq<char>)
    requires
        angle_id.len() + 1 + id.len() <= 256,
    ensures
        (angle_id + ":"@).is_prefix_of(prefixed_id(angle_id, id)),
        !(angle_id + ":"@).is_prefix_of(id) ==> prefixed_id(angle_id, id) == angle_id + ":"@ + id,
        prefixed_id(angle_id, angle_id + ":"@ + id) == angle_id + ":"@ + id,
        prefixed_id(angle_id, prefixed_id(angle_id, id)) == prefixed_id(angle_id, id),
{
    let prefix = angle_id + ":"@;
    reveal_strlit(":");
    assert((prefix + id).take(prefix.len() as int) =~= prefix);
    assert(prefix.is_prefix_of(prefix + id));
    assert(angle_id + ":"@ + id =~= prefix + id);
}

/// An identifier that is free is taken as it is; one that is taken gets the first number
/// from two on that makes it free.
pub proof fn law_free_ids_are_kept(angle_id: Seq<char>, id: Seq<char>, seen: Seq<Seq<char>>, n: int)
    requires
        2 <= n <= MAX_SUFFIX,
        seen.contains(prefixed_id(angle_id, id)),
        !seen.contains(
            bounded_id(angle_id, prefixed_id(angle_id, id) + "~"@ + decimal_of(n as nat)),
        ),
        forall|k: int|
            2 <= k < n ==> seen.contains(
                bounded_id(
                    angle_id,
                    #[trigger] (prefixed_id(angle_id, id) + "~"@ + decimal_of(k as nat)),
                ),
            ),
    ensures
        unique_id(angle_id, id, seen) == Some(
            bounded_id(angle_id, prefixed_id(angle_id, id) + "~"@ + decimal_of(n as nat)),
        ),
        unique_id(angle_id, id, Seq::empty()) == Some(prefixed_id(angle_id, id)),
{
    lemma_free_at(angle_id, prefixed_id(angle_id, id), seen, 2, n);
}

proof fn lemma_free_at(
    angle_id: Seq<char>,
    base: Seq<char>,
    seen: Seq<Seq<char>>,
    from: int,
    n: int,
)
    requires
        2 <= from <= n <= MAX_SUFFIX,
        !seen.contains(suffixed_id(angle_id, base, n)),
        forall|k: int|
            2 <= k < n ==> seen.contains(
                bounded_id(angle_id, #[trigger] (base + "~"@ + decimal_of(k as nat))),
            ),
    ensures
        free_id(angle_id, base, seen, from) == Some(suffixed_id(angle_id, base, n)),
    decreases n - from,
{
    if from < n {
        let t = base + "~"@ + decimal_of(from as nat);
        assert(seen.contains(bounded_id(angle_id, t)));
        lemma_free_at(angle_id, base, seen, from + 1, n);
    }
}

/// The hash in an identifier has as many digits as asked for, all of them hexadecimal.
pub proof fn law_hexadecimal(n: nat, digits: nat)
    ensures
        hex_of(n, digits).len() == digits,
        forall|i: int|
            0 <= i < digits ==> ('0' <= #[trigger] hex_of(n, digits)[i] <= '9' || 'a' <= hex_of(
                n,
                digits,
            )[i] <= 'f'),
    decreases digits,
{
    if digits > 0 {
        law_hexadecimal(n / 16, (digits - 1) as nat);
        let head = hex_of(n / 16, (digits - 1) as nat);
        assert forall|i: int| 0 <= i < digits implies ('0' <= #[trigger] hex_of(n, digits)[i]
            <= '9' || 'a' <= hex_of(n, digits)[i] <= 'f') by {
            if i < head.len() {
                assert(hex_of(n, digits)[i] == head[i]);
            }
        }
    }
}

} // verus!
