//! Which findings rest on evidence.
use vstd::prelude::*;

use crate::claims::{contract_contradicted, contradicts_checked_contract};
use crate::diff::{
    evidence_views, normalize_evidence_line, normalized, replacement_checked, shown_at, shows,
    DiffEvidenceSet, EvidenceSetView, EvidenceView, FindingEvidence, FindingEvidenceSide,
};
use crate::findings::{
    finding_views, opt_grounding_view, EvidenceGateResult, Finding, FindingClassification,
    FindingDisposition, FindingGrounding, FindingView, GroundingView, Severity,
};
use crate::list::holds;
use crate::split::{blank, is_blank, lines, lines_of, trim, trimmed};
use crate::text::{concat3, contains, has_text, lowercase, opt_view, same_text, to_lowercase, views};

verus! {

/// A file of the repository that was read.
#[derive(Debug, PartialEq, Eq)]
pub struct RepoFile {
    pub path: String,
    /// The text is all of the file.
    pub complete: bool,
    pub text: String,
}

/// A file of the repository that was read.
pub struct RepoFileView {
    pub path: Seq<char>,
    pub complete: bool,
    pub text: Seq<char>,
}

impl View for RepoFile {
    type V = RepoFileView;

    open spec fn view(&self) -> RepoFileView {
        RepoFileView { path: self.path@, complete: self.complete, text: self.text@ }
    }
}

/// What files that were read are.
pub open spec fn repo_file_views(s: Seq<RepoFile>) -> Seq<RepoFileView> {
    s.map_values(|f: RepoFile| f@)
}

/// The first file with this path among those from `from` on.
pub open spec fn file_from(files: Seq<RepoFileView>, path: Seq<char>, from: int) -> Option<
    RepoFileView,
>
    decreases files.len() - from,
{
    if from < 0 || from >= files.len() {
        None
    } else if files[from].path == path {
        Some(files[from])
    } else {
        file_from(files, path, from + 1)
    }
}

fn file_at<'a>(files: &'a Vec<RepoFile>, path: &str) -> (r: Option<&'a RepoFile>)
    ensures
        match r {
            Some(f) => file_from(repo_file_views(files@), path@, 0) == Some(f@),
            None => file_from(repo_file_views(files@), path@, 0) is None,
        },
{
    let ghost all = repo_file_views(files@);
    let mut i: usize = 0;
    while i < files.len()
        invariant
            i <= files@.len(),
            all == repo_file_views(files@),
            all.len() == files@.len(),
            file_from(all, path@, 0) == file_from(all, path@, i as int),
        decreases files@.len() - i,
    {
        proof {
            assert(all[i as int] == files@[i as int]@);
        }
        if same_text(files[i].path.as_str(), path) {
            return Some(&files[i]);
        }
        i += 1;
    }
    None
}

/// A finding that was tracked before.
#[derive(Debug, PartialEq, Eq)]
pub struct PriorFinding {
    pub semantic_fingerprint: String,
    pub disposition: FindingDisposition,
    pub severity: Severity,
    pub file: Option<String>,
    pub grounding: Option<FindingGrounding>,
}

/// A finding that was tracked before.
pub struct PriorView {
    pub semantic_fingerprint: Seq<char>,
    pub disposition: FindingDisposition,
    pub severity: Severity,
    pub file: Option<Seq<char>>,
    pub grounding: Option<GroundingView>,
}

impl View for PriorFinding {
    type V = PriorView;

    open spec fn view(&self) -> PriorView {
        PriorView {
            semantic_fingerprint: self.semantic_fingerprint@,
            disposition: self.disposition,
            severity: self.severity,
            file: opt_view(self.file),
            grounding: opt_grounding_view(self.grounding),
        }
    }
}

/// What findings that were tracked before are.
pub open spec fn prior_views(s: Seq<PriorFinding>) -> Seq<PriorView> {
    s.map_values(|p: PriorFinding| p@)
}

/// The first finding with this fingerprint among those from `from` on.
pub open spec fn prior_from(prior: Seq<PriorView>, fingerprint: Seq<char>, from: int) -> Option<
    PriorView,
>
    decreases prior.len() - from,
{
    if from < 0 || from >= prior.len() {
        None
    } else if prior[from].semantic_fingerprint == fingerprint {
        Some(prior[from])
    } else {
        prior_from(prior, fingerprint, from + 1)
    }
}

fn find_prior<'a>(prior: &'a Vec<PriorFinding>, fingerprint: &str) -> (r: Option<&'a PriorFinding>)
    ensures
        match r {
            Some(p) => prior_from(prior_views(prior@), fingerprint@, 0) == Some(p@),
            None => prior_from(prior_views(prior@), fingerprint@, 0) is None,
        },
{
    let ghost all = prior_views(prior@);
    let mut i: usize = 0;
    while i < prior.len()
        invariant
            i <= prior@.len(),
            all == prior_views(prior@),
            all.len() == prior@.len(),
            prior_from(all, fingerprint@, 0) == prior_from(all, fingerprint@, i as int),
        decreases prior@.len() - i,
    {
        proof {
            assert(all[i as int] == prior@[i as int]@);
        }
        if same_text(prior[i].semantic_fingerprint.as_str(), fingerprint) {
            return Some(&prior[i]);
        }
        i += 1;
    }
    None
}

// ---------------------------------------------------------------------------
// Evidence
// ---------------------------------------------------------------------------

/// The text is there and is not blank.
pub open spec fn said(value: Option<Seq<char>>) -> bool {
    value matches Some(text) && !blank(text)
}

/// Whether the text is there and is not blank.
pub fn non_empty_option(value: &Option<String>) -> (r: bool)
    ensures
        r == said(opt_view(*value)),
{
    match value {
        Some(text) => !is_blank(text.as_str()),
        None => false,
    }
}

/// The line is the excerpt, however they are spaced.
pub open spec fn line_matches(line: Seq<char>, excerpt: Seq<char>) -> bool {
    normalized(line) == normalized(excerpt)
}

fn is_line(line: &str, excerpt: &str) -> (r: bool)
    ensures
        r == line_matches(line@, excerpt@),
{
    let a = normalize_evidence_line(line);
    let b = normalize_evidence_line(excerpt);
    same_text(a.as_str(), b.as_str())
}

/// The evidence quotes the line that it names: of the diff where that shows it, and of the
/// repository otherwise.
pub open spec fn evidence_matches(
    files: Seq<RepoFileView>,
    set: EvidenceSetView,
    e: EvidenceView,
) -> bool {
    &&& e.line != 0
    &&& !blank(e.excerpt)
    &&& !blank(e.reason)
    &&& match shown_at(set.shown, e.side, e.path, e.line) {
        Some(line) => line_matches(line, e.excerpt),
        None => e.side == FindingEvidenceSide::New && (file_from(files, e.path, 0) matches Some(
            file,
        ) && file.complete && e.line <= lines_of(file.text).len() && line_matches(
            lines_of(file.text)[e.line - 1],
            e.excerpt,
        )),
    }
}

/// Whether the evidence quotes the line that it names.
pub fn evidence_reference_matches(
    files: &Vec<RepoFile>,
    diff_evidence: &DiffEvidenceSet,
    evidence: &FindingEvidence,
) -> (r: bool)
    ensures
        r == evidence_matches(repo_file_views(files@), diff_evidence@, evidence@),
{
    if evidence.line == 0 || is_blank(evidence.excerpt.as_str()) || is_blank(
        evidence.reason.as_str(),
    ) {
        return false;
    }
    if let Some(line) = diff_evidence.line(evidence) {
        return is_line(line, evidence.excerpt.as_str());
    }
    if evidence.side == FindingEvidenceSide::Old {
        return false;
    }
    match file_at(files, evidence.path.as_str()) {
        None => false,
        Some(file) => {
            if !file.complete {
                return false;
            }
            let all = lines(file.text.as_str());
            proof {
                assert(views(all@).len() == all@.len());
            }
            if evidence.line as usize > all.len() {
                return false;
            }
            proof {
                assert(views(all@)[evidence.line - 1] == all@[evidence.line - 1]@);
            }
            is_line(all[evidence.line as usize - 1].as_str(), evidence.excerpt.as_str())
        },
    }
}

/// All evidence quotes the lines that it names.
pub open spec fn all_match(
    files: Seq<RepoFileView>,
    set: EvidenceSetView,
    evidence: Seq<EvidenceView>,
) -> bool {
    forall|k: int|
        0 <= k < evidence.len() ==> evidence_matches(files, set, #[trigger] evidence[k])
}

/// All evidence is of new lines, and quotes them.
pub open spec fn tests_match(
    files: Seq<RepoFileView>,
    set: EvidenceSetView,
    evidence: Seq<EvidenceView>,
) -> bool {
    forall|k: int|
        0 <= k < evidence.len() ==> (#[trigger] evidence[k]).side == FindingEvidenceSide::New
            && evidence_matches(files, set, evidence[k])
}

/// Some evidence is of a line that the diff shows.
pub open spec fn cites_change(set: EvidenceSetView, evidence: Seq<EvidenceView>) -> bool {
    exists|k: int| 0 <= k < evidence.len() && shows(set, #[trigger] evidence[k])
}

/// Some evidence is of a line that the diff adds.
pub open spec fn cites_addition(set: EvidenceSetView, evidence: Seq<EvidenceView>) -> bool {
    exists|k: int|
        0 <= k < evidence.len() && (#[trigger] evidence[k]).side == FindingEvidenceSide::New
            && shows(set, evidence[k])
}

fn every_match(
    files: &Vec<RepoFile>,
    diff_evidence: &DiffEvidenceSet,
    evidence: &Vec<FindingEvidence>,
) -> (r: bool)
    ensures
        r == all_match(repo_file_views(files@), diff_evidence@, evidence_views(evidence@)),
{
    let ghost all = evidence_views(evidence@);
    let mut i: usize = 0;
    while i < evidence.len()
        invariant
            i <= evidence@.len(),
            all == evidence_views(evidence@),
            forall|k: int|
                0 <= k < i ==> evidence_matches(
                    repo_file_views(files@),
                    diff_evidence@,
                    #[trigger] all[k],
                ),
        decreases evidence@.len() - i,
    {
        proof {
            assert(all[i as int] == evidence@[i as int]@);
        }
        if !evidence_reference_matches(files, diff_evidence, &evidence[i]) {
            return false;
        }
        i += 1;
    }
    true
}

fn every_test_match(
    files: &Vec<RepoFile>,
    diff_evidence: &DiffEvidenceSet,
    evidence: &Vec<FindingEvidence>,
) -> (r: bool)
    ensures
        r == tests_match(repo_file_views(files@), diff_evidence@, evidence_views(evidence@)),
{
    let ghost all = evidence_views(evidence@);
    let mut i: usize = 0;
    while i < evidence.len()
        invariant
            i <= evidence@.len(),
            all == evidence_views(evidence@),
            forall|k: int|
                0 <= k < i ==> (#[trigger] all[k]).side == FindingEvidenceSide::New
                    && evidence_matches(repo_file_views(files@), diff_evidence@, all[k]),
        decreases evidence@.len() - i,
    {
        proof {
            assert(all[i as int] == evidence@[i as int]@);
        }
        if evidence[i].side != FindingEvidenceSide::New || !evidence_reference_matches(
            files,
            diff_evidence,
            &evidence[i],
        ) {
            return false;
        }
        i += 1;
    }
    true
}

fn is_change_cited(diff_evidence: &DiffEvidenceSet, evidence: &Vec<FindingEvidence>) -> (r: bool)
    ensures
        r == cites_change(diff_evidence@, evidence_views(evidence@)),
{
    let ghost all = evidence_views(evidence@);
    let mut i: usize = 0;
    while i < evidence.len()
        invariant
            i <= evidence@.len(),
            all == evidence_views(evidence@),
            forall|k: int| 0 <= k < i ==> !shows(diff_evidence@, #[trigger] all[k]),
        decreases evidence@.len() - i,
    {
        proof {
            assert(all[i as int] == evidence@[i as int]@);
        }
        if diff_evidence.contains(&evidence[i]) {
            return true;
        }
        i += 1;
    }
    false
}

fn is_addition_cited(diff_evidence: &DiffEvidenceSet, evidence: &Vec<FindingEvidence>) -> (r: bool)
    ensures
        r == cites_addition(diff_evidence@, evidence_views(evidence@)),
{
    let ghost all = evidence_views(evidence@);
    let mut i: usize = 0;
    while i < evidence.len()
        invariant
            i <= evidence@.len(),
            all == evidence_views(evidence@),
            forall|k: int|
                0 <= k < i ==> !((#[trigger] all[k]).side == FindingEvidenceSide::New && shows(
                    diff_evidence@,
                    all[k],
                )),
        decreases evidence@.len() - i,
    {
        proof {
            assert(all[i as int] == evidence@[i as int]@);
        }
        if evidence[i].side == FindingEvidenceSide::New && diff_evidence.contains(&evidence[i]) {
            return true;
        }
        i += 1;
    }
    false
}

// ---------------------------------------------------------------------------
// Rejections
// ---------------------------------------------------------------------------

/// The text sounds uncertain.
pub open spec fn sounds_uncertain(text: Seq<char>) -> bool {
    has_text(text, " may "@) || has_text(text, " might "@) || has_text(text, " could "@)
        || has_text(text, "hypothetical"@) || has_text(text, "consider "@)
}

/// What a finding says of itself, in lower case.
pub open spec fn explanation(finding: FindingView, grounding: GroundingView) -> Seq<char> {
    let detail = match finding.detail {
        Some(detail) => lowercase(detail),
        None => Seq::empty(),
    };
    detail + "\n"@ + lowercase(grounding.claim)
}

/// The source of the file that a finding is in, as far as it was read.
pub open spec fn finding_source(files: Seq<RepoFileView>, file: Option<Seq<char>>) -> Seq<char> {
    match file {
        Some(path) => match file_from(files, path, 0) {
            Some(read) => read.text,
            None => Seq::empty(),
        },
        None => Seq::empty(),
    }
}

/// Why a finding does not rest on evidence, or none where it does.
pub open spec fn rejection(
    files: Seq<RepoFileView>,
    set: EvidenceSetView,
    finding: FindingView,
) -> Option<Seq<char>> {
    match finding.grounding {
        None => Some("missing checked claim and repository evidence"@),
        Some(g) => if blank(g.claim) || blank(g.causal_path) || blank(g.test_assessment) {
            Some("missing claim, causal path, or test assessment"@)
        } else if g.evidence.len() == 0 {
            Some("missing repository evidence"@)
        } else if !all_match(files, set, g.evidence) {
            Some("repository evidence does not match the checked-out head"@)
        } else if !tests_match(files, set, g.related_tests) {
            Some("related test evidence does not match the checked-out head"@)
        } else if !cites_change(set, g.evidence) {
            Some("no evidence cites a changed line in the reviewed diff"@)
        } else if (finding.severity == Severity::P0 || finding.severity == Severity::P1) && !said(
            g.reproduction,
        ) && !said(g.proof_text) {
            Some("P0-P1 finding lacks reproduction-grade evidence"@)
        } else if finding.uncertain && !said(g.reproduction) && !said(g.proof_text)
            && sounds_uncertain(explanation(finding, g)) {
            Some("uncertain claim lacks reproduction or proof"@)
        } else if contract_contradicted(finding, finding_source(files, finding.file)) {
            Some("checked repository or platform contract disproves the claim"@)
        } else {
            None
        },
    }
}

/// What there may be of a fixed text.
pub open spec fn opt_text(r: Option<&'static str>) -> Option<Seq<char>> {
    match r {
        Some(s) => Some(s@),
        None => None,
    }
}

fn is_uncertain_text(finding: &Finding, grounding: &FindingGrounding) -> (r: bool)
    ensures
        r == sounds_uncertain(explanation(finding@, grounding@)),
{
    let detail = match &finding.detail {
        Some(detail) => to_lowercase(detail.as_str()),
        None => String::new(),
    };
    let claim = to_lowercase(grounding.claim.as_str());
    let text = concat3(detail.as_str(), "\n", claim.as_str());
    let text = text.as_str();
    contains(text, " may ") || contains(text, " might ") || contains(text, " could ") || contains(
        text,
        "hypothetical",
    ) || contains(text, "consider ")
}

fn is_contradicted(files: &Vec<RepoFile>, finding: &Finding) -> (r: bool)
    ensures
        r == contract_contradicted(
            finding@,
            finding_source(repo_file_views(files@), finding@.file),
        ),
{
    let found = match &finding.file {
        Some(path) => file_at(files, path.as_str()),
        None => None,
    };
    match found {
        Some(file) => contradicts_checked_contract(finding, file.text.as_str()),
        None => {
            proof {
                reveal_strlit("");
                assert(""@ =~= Seq::empty());
            }
            contradicts_checked_contract(finding, "")
        },
    }
}

/// Why a finding does not rest on evidence, or none where it does.
pub fn finding_grounding_rejection(
    files: &Vec<RepoFile>,
    diff_evidence: &DiffEvidenceSet,
    finding: &Finding,
) -> (r: Option<&'static str>)
    ensures
        opt_text(r) == rejection(repo_file_views(files@), diff_evidence@, finding@),
{
    let grounding = match &finding.grounding {
        Some(grounding) => grounding,
        None => {
            return Some("missing checked claim and repository evidence");
        },
    };
    if is_blank(grounding.claim.as_str()) || is_blank(grounding.causal_path.as_str()) || is_blank(
        grounding.test_assessment.as_str(),
    ) {
        return Some("missing claim, causal path, or test assessment");
    }
    proof {
        assert(evidence_views(grounding.evidence@).len() == grounding.evidence@.len());
    }
    if grounding.evidence.len() == 0 {
        return Some("missing repository evidence");
    }
    if !every_match(files, diff_evidence, &grounding.evidence) {
        return Some("repository evidence does not match the checked-out head");
    }
    if !every_test_match(files, diff_evidence, &grounding.related_tests) {
        return Some("related test evidence does not match the checked-out head");
    }
    if !is_change_cited(diff_evidence, &grounding.evidence) {
        return Some("no evidence cites a changed line in the reviewed diff");
    }
    let backed = non_empty_option(&grounding.reproduction) || non_empty_option(
        &grounding.proof_text,
    );
    if (finding.severity == Severity::P0 || finding.severity == Severity::P1) && !backed {
        return Some("P0-P1 finding lacks reproduction-grade evidence");
    }
    if finding.uncertain && !backed && is_uncertain_text(finding, grounding) {
        return Some("uncertain claim lacks reproduction or proof");
    }
    if is_contradicted(files, finding) {
        return Some("checked repository or platform contract disproves the claim");
    }
    None
}

/// A finding that is not rejected rests on evidence: there is some, all of it quotes what
/// it names, some of it is of a changed line, and a grave finding comes with a
/// reproduction or a proof.
pub proof fn law_grounded_findings_rest_on_evidence(
    files: Seq<RepoFileView>,
    set: EvidenceSetView,
    finding: FindingView,
)
    requires
        rejection(files, set, finding) is None,
    ensures
        finding.grounding matches Some(g) && g.evidence.len() > 0 && all_match(
            files,
            set,
            g.evidence,
        ) && tests_match(files, set, g.related_tests) && cites_change(set, g.evidence) && (
        finding.severity == Severity::P0 || finding.severity == Severity::P1 ==> said(
            g.reproduction,
        ) || said(g.proof_text)) && !contract_contradicted(
            finding,
            finding_source(files, finding.file),
        ),
{
}

// ---------------------------------------------------------------------------
// Resolutions
// ---------------------------------------------------------------------------

/// The line that a piece of earlier evidence quotes was removed, and the evidence names
/// all that replaced it.
pub open spec fn evidence_replaced(
    e: EvidenceView,
    evidence: Seq<EvidenceView>,
    set: EvidenceSetView,
) -> bool {
    &&& e.side == FindingEvidenceSide::New
    &&& shown_at(set.shown, FindingEvidenceSide::Old, e.path, e.line) matches Some(line)
        && line_matches(line, e.excerpt)
    &&& replacement_checked(
        set,
        EvidenceView { side: FindingEvidenceSide::Old, ..e },
        evidence,
    )
}

/// There was earlier evidence, and all of it was replaced.
pub open spec fn all_replaced(
    prior: Seq<EvidenceView>,
    evidence: Seq<EvidenceView>,
    set: EvidenceSetView,
) -> bool {
    &&& prior.len() > 0
    &&& forall|k: int|
        0 <= k < prior.len() ==> evidence_replaced(#[trigger] prior[k], evidence, set)
}

/// Whether there was earlier evidence, all of which was replaced.
pub fn resolution_replaces_prior_evidence(
    prior_evidence: &Vec<FindingEvidence>,
    resolution_evidence: &Vec<FindingEvidence>,
    diff_evidence: &DiffEvidenceSet,
) -> (r: bool)
    ensures
        r == all_replaced(
            evidence_views(prior_evidence@),
            evidence_views(resolution_evidence@),
            diff_evidence@,
        ),
{
    let ghost all = evidence_views(prior_evidence@);
    let ghost given = evidence_views(resolution_evidence@);
    proof {
        assert(all.len() == prior_evidence@.len());
    }
    if prior_evidence.len() == 0 {
        return false;
    }
    let mut i: usize = 0;
    while i < prior_evidence.len()
        invariant
            i <= prior_evidence@.len(),
            all == evidence_views(prior_evidence@),
            all.len() == prior_evidence@.len(),
            given == evidence_views(resolution_evidence@),
            forall|k: int|
                0 <= k < i ==> evidence_replaced(#[trigger] all[k], given, diff_evidence@),
        decreases prior_evidence@.len() - i,
    {
        let e = &prior_evidence[i];
        proof {
            assert(all[i as int] == e@);
        }
        if e.side == FindingEvidenceSide::Old {
            return false;
        }
        let mut deleted = e.clone();
        deleted.side = FindingEvidenceSide::Old;
        proof {
            assert(deleted@ == (EvidenceView { side: FindingEvidenceSide::Old, ..e@ }));
        }
        match diff_evidence.line(&deleted) {
            None => {
                return false;
            },
            Some(line) => {
                if !is_line(line, e.excerpt.as_str()) {
                    return false;
                }
            },
        }
        if !diff_evidence.replacement_block_is_fully_checked(&deleted, resolution_evidence) {
            return false;
        }
        i += 1;
    }
    true
}

/// The finding asks for a resolution.
pub open spec fn resolution_requested(finding: FindingView) -> bool {
    finding.grounding matches Some(g) && (g.resolution_disposition is Some
        || g.resolution_evidence_summary is Some)
}

/// What the resolution rests on, as the finding puts it.
pub open spec fn resolution_summary(finding: FindingView) -> Seq<char> {
    match finding.grounding {
        Some(g) => match g.resolution_evidence_summary {
            Some(summary) => summary,
            None => Seq::empty(),
        },
        None => Seq::empty(),
    }
}

/// The finding, as grave as it was before.
pub open spec fn as_before(finding: FindingView, prior: PriorView) -> FindingView {
    FindingView { severity: prior.severity, ..finding }
}

/// What a finding shows to be fixed: one that was open, in a file that was changed, all
/// of whose evidence was replaced, by evidence that cites an added line.
pub open spec fn resolves(
    files: Seq<RepoFileView>,
    set: EvidenceSetView,
    changed_files: Seq<Seq<char>>,
    finding: FindingView,
    prior: PriorView,
) -> bool {
    finding.grounding matches Some(g) && {
        &&& g.resolution_disposition == Some(FindingDisposition::Fixed)
        &&& !blank(resolution_summary(finding))
        &&& prior.disposition == FindingDisposition::StillOpen
        &&& prior.file matches Some(file) && changed_files.contains(file)
        &&& prior.grounding matches Some(earlier) && all_replaced(
            earlier.evidence,
            g.evidence,
            set,
        )
        &&& cites_addition(set, g.evidence)
        &&& rejection(files, set, as_before(finding, prior)) is None
    }
}

/// What becomes of a finding.
pub enum GroundingVerdict {
    /// It is kept.
    Keep { gate: EvidenceGateResult },
    /// It shows that one tracked before is fixed, and is as grave as that.
    Resolve { severity: Severity },
    /// It is dropped, with a note.
    Suppress { note: String },
}

/// What becomes of a finding.
pub enum VerdictView {
    Keep { gate: EvidenceGateResult },
    Resolve { severity: Severity },
    Suppress { note: Seq<char> },
}

impl View for GroundingVerdict {
    type V = VerdictView;

    open spec fn view(&self) -> VerdictView {
        match self {
            GroundingVerdict::Keep { gate } => VerdictView::Keep { gate: *gate },
            GroundingVerdict::Resolve { severity } => VerdictView::Resolve { severity: *severity },
            GroundingVerdict::Suppress { note } => VerdictView::Suppress { note: note@ },
        }
    }
}

/// What every finding of a review is held against.
pub struct GroundingContext {
    pub files: Vec<RepoFile>,
    pub diff_evidence: DiffEvidenceSet,
    pub changed_files: Vec<String>,
    pub prior: Vec<PriorFinding>,
}

/// What every finding of a review is held against.
pub struct ContextView {
    pub files: Seq<RepoFileView>,
    pub set: EvidenceSetView,
    pub changed_files: Seq<Seq<char>>,
    pub prior: Seq<PriorView>,
}

impl View for GroundingContext {
    type V = ContextView;

    open spec fn view(&self) -> ContextView {
        ContextView {
            files: repo_file_views(self.files@),
            set: self.diff_evidence@,
            changed_files: views(self.changed_files@),
            prior: prior_views(self.prior@),
        }
    }
}

/// The note on a resolution that is not accepted.
pub open spec fn invalid_resolution_note(id: Seq<char>) -> Seq<char> {
    "Suppressed invalid fixed resolution for "@ + id
        + ": exact prior identity, deletion of every prior current-head evidence location, proof covering each complete replacement block, and a non-empty evidence summary are required."@
}

/// What becomes of a finding that asks for a resolution.
pub open spec fn resolution_verdict(c: ContextView, finding: FindingView) -> VerdictView {
    match prior_from(c.prior, finding.semantic_fingerprint, 0) {
        Some(prior) => if resolves(c.files, c.set, c.changed_files, finding, prior) {
            VerdictView::Resolve { severity: prior.severity }
        } else {
            VerdictView::Suppress { note: invalid_resolution_note(finding.id) }
        },
        None => VerdictView::Suppress { note: invalid_resolution_note(finding.id) },
    }
}

/// The finding is no more than advice.
pub open spec fn advisory(finding: FindingView) -> bool {
    finding.severity == Severity::P4 || finding.classification
        == FindingClassification::ContractAmbiguity || finding.classification
        == FindingClassification::Suggestion
}

/// What becomes of a finding.
pub open spec fn verdict_of(c: ContextView, finding: FindingView) -> VerdictView {
    if finding.grounding matches Some(g) && blank(g.semantic_key) {
        VerdictView::Suppress {
            note: "Suppressed finding "@ + finding.id + ": missing stable semantic_key."@,
        }
    } else if resolution_requested(finding) {
        resolution_verdict(c, finding)
    } else if advisory(finding) {
        VerdictView::Keep { gate: EvidenceGateResult::NotRequired }
    } else if !finding.requires_evidence_gate {
        VerdictView::Suppress {
            note: "Suppressed uncertain finding "@ + finding.id
                + ": confidence is below the high-confidence blocking threshold."@,
        }
    } else {
        match rejection(c.files, c.set, finding) {
            Some(reason) => VerdictView::Suppress {
                note: "Suppressed ungrounded finding "@ + finding.id + ": "@ + reason + "."@,
            },
            None => VerdictView::Keep { gate: EvidenceGateResult::Passed },
        }
    }
}

fn file_changed(prior: &PriorFinding, changed_files: &Vec<String>) -> (r: bool)
    ensures
        r == (prior@.file matches Some(file) && views(changed_files@).contains(file)),
{
    match &prior.file {
        Some(file) => holds(changed_files, file.as_str()),
        None => false,
    }
}

fn is_replaced(
    prior: &PriorFinding,
    evidence: &Vec<FindingEvidence>,
    diff_evidence: &DiffEvidenceSet,
) -> (r: bool)
    ensures
        r == (prior@.grounding matches Some(earlier) && all_replaced(
            earlier.evidence,
            evidence_views(evidence@),
            diff_evidence@,
        )),
{
    match &prior.grounding {
        Some(earlier) => resolution_replaces_prior_evidence(
            &earlier.evidence,
            evidence,
            diff_evidence,
        ),
        None => false,
    }
}

fn says_fixed(grounding: &FindingGrounding) -> (r: bool)
    ensures
        r == (grounding@.resolution_disposition == Some(FindingDisposition::Fixed) && said(
            grounding@.resolution_evidence_summary,
        )),
{
    let fixed = match grounding.resolution_disposition {
        Some(FindingDisposition::Fixed) => true,
        _ => false,
    };
    fixed && non_empty_option(&grounding.resolution_evidence_summary)
}

/// Whether a finding, as grave as one tracked before, shows that one to be fixed.
fn is_resolved(context: &GroundingContext, finding: &Finding, prior: &PriorFinding) -> (r: bool)
    requires
        finding.severity == prior.severity,
    ensures
        r == resolves(
            context@.files,
            context@.set,
            context@.changed_files,
            finding@,
            prior@,
        ),
{
    let grounding = match &finding.grounding {
        Some(grounding) => grounding,
        None => {
            return false;
        },
    };
    let open = match prior.disposition {
        FindingDisposition::StillOpen => true,
        _ => false,
    };
    proof {
        assert(as_before(finding@, prior@) == finding@);
        assert(blank(Seq::<char>::empty())) by {
            assert(trimmed(Seq::<char>::empty()) =~= Seq::<char>::empty());
        }
    }
    says_fixed(grounding) && open && file_changed(prior, &context.changed_files) && is_replaced(
        prior,
        &grounding.evidence,
        &context.diff_evidence,
    ) && is_addition_cited(&context.diff_evidence, &grounding.evidence)
        && finding_grounding_rejection(
        &context.files,
        &context.diff_evidence,
        finding,
    ).is_none()
}

fn decide_resolution(context: &GroundingContext, finding: &mut Finding) -> (r: GroundingVerdict)
    ensures
        r@ == resolution_verdict(context@, old(finding)@),
        match r@ {
            VerdictView::Resolve { severity } => final(finding)@ == (FindingView {
                severity,
                ..old(finding)@
            }),
            _ => final(finding)@ == old(finding)@,
        },
{
    let ghost before = finding@;
    match find_prior(&context.prior, finding.semantic_fingerprint.as_str()) {
        Some(prior) => {
            let own = finding.severity;
            finding.severity = prior.severity;
            proof {
                let same = resolves(
                    context@.files,
                    context@.set,
                    context@.changed_files,
                    finding@,
                    prior@,
                );
                assert(as_before(finding@, prior@) == as_before(before, prior@));
                assert(same == resolves(
                    context@.files,
                    context@.set,
                    context@.changed_files,
                    before,
                    prior@,
                ));
            }
            if is_resolved(context, finding, prior) {
                return GroundingVerdict::Resolve { severity: prior.severity };
            }
            finding.severity = own;
            proof {
                assert(finding@ == before);
            }
        },
        None => {},
    }
    GroundingVerdict::Suppress {
        note: concat3(
            "Suppressed invalid fixed resolution for ",
            finding.id.as_str(),
            ": exact prior identity, deletion of every prior current-head evidence location, proof covering each complete replacement block, and a non-empty evidence summary are required.",
        ),
    }
}

fn lacks_key(finding: &Finding) -> (r: bool)
    ensures
        r == (finding@.grounding matches Some(g) && blank(g.semantic_key)),
{
    match &finding.grounding {
        Some(grounding) => is_blank(grounding.semantic_key.as_str()),
        None => false,
    }
}

fn asks_for_resolution(finding: &Finding) -> (r: bool)
    ensures
        r == resolution_requested(finding@),
{
    match &finding.grounding {
        Some(grounding) => grounding.resolution_disposition.is_some()
            || grounding.resolution_evidence_summary.is_some(),
        None => false,
    }
}

fn is_advisory(finding: &Finding) -> (r: bool)
    ensures
        r == advisory(finding@),
{
    finding.severity == Severity::P4 || finding.classification
        == FindingClassification::ContractAmbiguity || finding.classification
        == FindingClassification::Suggestion
}

/// What becomes of a finding. One that resolves another gets that one's severity.
pub fn decide_finding(context: &GroundingContext, finding: &mut Finding) -> (r: GroundingVerdict)
    ensures
        r@ == verdict_of(context@, old(finding)@),
        match r@ {
            VerdictView::Resolve { severity } => final(finding)@ == (FindingView {
                severity,
                ..old(finding)@
            }),
            _ => final(finding)@ == old(finding)@,
        },
{
    if lacks_key(finding) {
        return GroundingVerdict::Suppress {
            note: concat3(
                "Suppressed finding ",
                finding.id.as_str(),
                ": missing stable semantic_key.",
            ),
        };
    }
    if asks_for_resolution(finding) {
        return decide_resolution(context, finding);
    }
    if is_advisory(finding) {
        return GroundingVerdict::Keep { gate: EvidenceGateResult::NotRequired };
    }
    if !finding.requires_evidence_gate {
        return GroundingVerdict::Suppress {
            note: concat3(
                "Suppressed uncertain finding ",
                finding.id.as_str(),
                ": confidence is below the high-confidence blocking threshold.",
            ),
        };
    }
    match finding_grounding_rejection(&context.files, &context.diff_evidence, finding) {
        Some(reason) => {
            let head = concat3("Suppressed ungrounded finding ", finding.id.as_str(), ": ");
            GroundingVerdict::Suppress { note: concat3(head.as_str(), reason, ".") }
        },
        None => GroundingVerdict::Keep { gate: EvidenceGateResult::Passed },
    }
}

// ---------------------------------------------------------------------------
// All findings
// ---------------------------------------------------------------------------

/// A finding that shows that one tracked before is fixed.
#[derive(Debug, PartialEq, Eq)]
pub struct FixedResolution {
    pub evidence_summary: String,
    pub finding: Finding,
}

/// A finding that shows that one tracked before is fixed.
pub struct ResolutionView {
    pub evidence_summary: Seq<char>,
    pub finding: FindingView,
}

impl View for FixedResolution {
    type V = ResolutionView;

    open spec fn view(&self) -> ResolutionView {
        ResolutionView { evidence_summary: self.evidence_summary@, finding: self.finding@ }
    }
}

/// What resolutions are.
pub open spec fn resolution_views(s: Seq<FixedResolution>) -> Seq<ResolutionView> {
    s.map_values(|x: FixedResolution| x@)
}

/// What became of the findings of a review.
#[derive(Debug, PartialEq, Eq)]
pub struct GroundedFindings {
    /// The findings that are kept.
    pub findings: Vec<Finding>,
    /// What became of the evidence of each.
    pub gates: Vec<EvidenceGateResult>,
    /// The findings that show that one tracked before is fixed.
    pub resolutions: Vec<FixedResolution>,
    /// Why the others were dropped.
    pub notes: Vec<String>,
}

/// What became of the findings of a review.
pub struct GroundedView {
    pub findings: Seq<FindingView>,
    pub gates: Seq<EvidenceGateResult>,
    pub resolutions: Seq<ResolutionView>,
    pub notes: Seq<Seq<char>>,
}

impl View for GroundedFindings {
    type V = GroundedView;

    open spec fn view(&self) -> GroundedView {
        GroundedView {
            findings: finding_views(self.findings@),
            gates: self.gates@,
            resolutions: resolution_views(self.resolutions@),
            notes: views(self.notes@),
        }
    }
}

/// What became of findings with one more.
pub open spec fn with_finding(c: ContextView, so_far: GroundedView, f: FindingView) -> GroundedView {
    match verdict_of(c, f) {
        VerdictView::Keep { gate } => GroundedView {
            findings: so_far.findings.push(f),
            gates: so_far.gates.push(gate),
            ..so_far
        },
        VerdictView::Resolve { severity } => GroundedView {
            resolutions: so_far.resolutions.push(
                ResolutionView {
                    evidence_summary: trimmed(resolution_summary(f)),
                    finding: FindingView { severity, ..f },
                },
            ),
            ..so_far
        },
        VerdictView::Suppress { note } => GroundedView {
            notes: so_far.notes.push(note),
            ..so_far
        },
    }
}

/// What becomes of findings.
pub open spec fn grounded(c: ContextView, findings: Seq<FindingView>) -> GroundedView
    decreases findings.len(),
{
    if findings.len() == 0 {
        GroundedView {
            findings: Seq::empty(),
            gates: Seq::empty(),
            resolutions: Seq::empty(),
            notes: Seq::empty(),
        }
    } else {
        with_finding(c, grounded(c, findings.drop_last()), findings.last())
    }
}

fn summary_of(finding: &Finding) -> (r: String)
    ensures
        r@ == trimmed(resolution_summary(finding@)),
{
    match &finding.grounding {
        Some(grounding) => match &grounding.resolution_evidence_summary {
            Some(summary) => trim(summary.as_str()),
            None => trim(String::new().as_str()),
        },
        None => trim(String::new().as_str()),
    }
}

fn add_finding(context: &GroundingContext, so_far: &mut GroundedFindings, finding: Finding)
    ensures
        final(so_far)@ == with_finding(context@, old(so_far)@, finding@),
{
    let ghost before = so_far@;
    let ghost f = finding@;
    let mut finding = finding;
    match decide_finding(context, &mut finding) {
        GroundingVerdict::Keep { gate } => {
            so_far.findings.push(finding);
            so_far.gates.push(gate);
            proof {
                assert(so_far@.findings =~= before.findings.push(f));
            }
        },
        GroundingVerdict::Resolve { severity } => {
            let resolution = FixedResolution {
                evidence_summary: summary_of(&finding),
                finding,
            };
            so_far.resolutions.push(resolution);
            proof {
                assert(so_far@.resolutions =~= before.resolutions.push(resolution@));
            }
        },
        GroundingVerdict::Suppress { note } => {
            so_far.notes.push(note);
            proof {
                assert(so_far@.notes =~= before.notes.push(note@));
            }
        },
    }
}

/// What becomes of the findings of a review: those that rest on evidence are kept, those
/// that show that one tracked before is fixed are told apart, and the others are dropped
/// with a note.
pub fn ground_artifact_findings(context: &GroundingContext, findings: Vec<Finding>) -> (r:
    GroundedFindings)
    ensures
        r@ == grounded(context@, finding_views(findings@)),
{
    let ghost all = finding_views(findings@);
    let mut left = findings;
    let mut r = GroundedFindings {
        findings: Vec::new(),
        gates: Vec::new(),
        resolutions: Vec::new(),
        notes: Vec::new(),
    };
    let ghost mut i: int = 0;
    proof {
        let none = grounded(context@, all.take(0));
        assert(r@.findings =~= none.findings);
        assert(r@.gates =~= none.gates);
        assert(r@.resolutions =~= none.resolutions);
        assert(r@.notes =~= none.notes);
        assert(left@ =~= findings@.skip(0));
    }
    while left.len() > 0
        invariant
            0 <= i <= findings@.len(),
            all == finding_views(findings@),
            all.len() == findings@.len(),
            left@ == findings@.skip(i),
            r@ == grounded(context@, all.take(i)),
        decreases left@.len(),
    {
        proof {
            assert(all.take(i + 1).drop_last() =~= all.take(i));
            assert(left@[0] == findings@[i]);
            assert(all.take(i + 1).last() == findings@[i]@);
        }
        let finding = left.remove(0);
        proof {
            assert(left@ =~= findings@.skip(i + 1));
        }
        add_finding(context, &mut r, finding);
        proof {
            i = i + 1;
        }
    }
    proof {
        assert(all.take(i) =~= all);
    }
    r
}

/// Every finding is kept, resolves another or is dropped with a note, and of each that is
/// kept it is told what became of its evidence.
pub proof fn law_every_finding_is_accounted_for(c: ContextView, findings: Seq<FindingView>)
    ensures
        grounded(c, findings).findings.len() + grounded(c, findings).resolutions.len() + grounded(
            c,
            findings,
        ).notes.len() == findings.len(),
        grounded(c, findings).gates.len() == grounded(c, findings).findings.len(),
    decreases findings.len(),
{
    if findings.len() > 0 {
        law_every_finding_is_accounted_for(c, findings.drop_last());
    }
}

/// A finding that is kept is advice, or rests on evidence.
pub proof fn law_kept_findings_rest_on_evidence(
    c: ContextView,
    findings: Seq<FindingView>,
    i: int,
)
    requires
        0 <= i < grounded(c, findings).findings.len(),
    ensures
        findings.contains(grounded(c, findings).findings[i]),
        match grounded(c, findings).gates[i] {
            EvidenceGateResult::Passed => rejection(
                c.files,
                c.set,
                grounded(c, findings).findings[i],
            ) is None,
            EvidenceGateResult::NotRequired => advisory(grounded(c, findings).findings[i]),
            EvidenceGateResult::Failed => false,
        },
    decreases findings.len(),
{
    law_every_finding_is_accounted_for(c, findings);
    if findings.len() > 0 {
        law_every_finding_is_accounted_for(c, findings.drop_last());
        let rest = grounded(c, findings.drop_last());
        if i < rest.findings.len() {
            law_kept_findings_rest_on_evidence(c, findings.drop_last(), i);
            let k = choose|k: int|
                0 <= k < findings.drop_last().len() && findings.drop_last()[k]
                    == rest.findings[i];
            assert(findings[k] == rest.findings[i]);
        } else {
            assert(findings[findings.len() - 1] == grounded(c, findings).findings[i]);
        }
    }
}

/// A finding is resolved only where one with its identity was tracked and open before.
pub proof fn law_resolutions_are_of_open_findings(c: ContextView, finding: FindingView)
    requires
        verdict_of(c, finding) is Resolve,
    ensures
        prior_from(c.prior, finding.semantic_fingerprint, 0) matches Some(prior)
            && prior.disposition == FindingDisposition::StillOpen && prior.semantic_fingerprint
            == finding.semantic_fingerprint && verdict_of(c, finding)->severity
            == prior.severity,
{
    lemma_prior_has_fingerprint(c.prior, finding.semantic_fingerprint, 0);
}

proof fn lemma_prior_has_fingerprint(prior: Seq<PriorView>, fingerprint: Seq<char>, from: int)
    ensures
        prior_from(prior, fingerprint, from) matches Some(p) ==> p.semantic_fingerprint
            == fingerprint,
    decreases prior.len() - from,
{
    if 0 <= from < prior.len() && prior[from].semantic_fingerprint != fingerprint {
        lemma_prior_has_fingerprint(prior, fingerprint, from + 1);
    }
}

// ---------------------------------------------------------------------------
// What holds of it
// ---------------------------------------------------------------------------

/// A finding is not rejected exactly if it says what it claims, by which path and how that
/// was tested; all that it quotes stands where it says, with the related tests on the new
/// side; some of it is a changed line; it has a reproduction or a proof where it is of the
/// two gravest severities, or uncertain and uncertain in its words; and nothing that was
/// checked contradicts it.
pub proof fn law_findings_that_rest_on_evidence_are_not_rejected(
    files: Seq<RepoFileView>,
    set: EvidenceSetView,
    finding: FindingView,
    g: GroundingView,
)
    requires
        finding.grounding == Some(g),
    ensures
        rejection(files, set, finding) is None <==> ({
            let backed = (g.reproduction matches Some(text) && !blank(text)) || (
            g.proof_text matches Some(text) && !blank(text));
            &&& !blank(g.claim) && !blank(g.causal_path) && !blank(g.test_assessment)
            &&& g.evidence.len() > 0
            &&& forall|k: int|
                0 <= k < g.evidence.len() ==> evidence_matches(files, set, #[trigger] g.evidence[k])
            &&& forall|k: int|
                0 <= k < g.related_tests.len() ==> (#[trigger] g.related_tests[k]).side
                    == FindingEvidenceSide::New && evidence_matches(
                    files,
                    set,
                    g.related_tests[k],
                )
            &&& exists|k: int|
                0 <= k < g.evidence.len() && shown_at(
                    set.shown,
                    (#[trigger] g.evidence[k]).side,
                    g.evidence[k].path,
                    g.evidence[k].line,
                ) is Some
            &&& backed || (finding.severity != Severity::P0 && finding.severity != Severity::P1)
            &&& backed || !finding.uncertain || !sounds_uncertain(explanation(finding, g))
            &&& !contract_contradicted(finding, finding_source(files, finding.file))
        }),
{
    if rejection(files, set, finding) is None {
        let k = choose|k: int| 0 <= k < g.evidence.len() && shows(set, #[trigger] g.evidence[k]);
        assert(shown_at(set.shown, g.evidence[k].side, g.evidence[k].path, g.evidence[k].line)
            is Some);
    }
    if exists|k: int|
        0 <= k < g.evidence.len() && shown_at(
            set.shown,
            (#[trigger] g.evidence[k]).side,
            g.evidence[k].path,
            g.evidence[k].line,
        ) is Some {
        let k = choose|k: int|
            0 <= k < g.evidence.len() && shown_at(
                set.shown,
                (#[trigger] g.evidence[k]).side,
                g.evidence[k].path,
                g.evidence[k].line,
            ) is Some;
        assert(shows(set, g.evidence[k]));
    }
}

/// A reproduction or a proof is asked of the two gravest severities and of uncertain
/// findings alone: any other finding that rests on evidence is not rejected, whatever
/// reproduction or proof it has.
pub proof fn law_only_grave_findings_need_a_proof(
    files: Seq<RepoFileView>,
    set: EvidenceSetView,
    finding: FindingView,
    g: GroundingView,
    reproduction: Option<Seq<char>>,
    proof_text: Option<Seq<char>>,
)
    requires
        finding.grounding == Some(g),
        finding.severity == Severity::P2 || finding.severity == Severity::P3 || finding.severity
            == Severity::P4,
        !finding.uncertain,
        !blank(g.claim) && !blank(g.causal_path) && !blank(g.test_assessment),
        g.evidence.len() > 0,
        all_match(files, set, g.evidence),
        tests_match(files, set, g.related_tests),
        cites_change(set, g.evidence),
        !contract_contradicted(finding, finding_source(files, finding.file)),
    ensures
        rejection(files, set, finding) is None,
        !contract_contradicted(
            FindingView {
                grounding: Some(GroundingView { reproduction, proof_text, ..g }),
                ..finding
            },
            finding_source(files, finding.file),
        ) ==> rejection(
            files,
            set,
            FindingView {
                grounding: Some(GroundingView { reproduction, proof_text, ..g }),
                ..finding
            },
        ) is None,
{
}

/// A grave finding without a reproduction and without a proof is rejected, and so is a
/// finding without evidence, without a changed line or with a quotation that does not
/// match.
pub proof fn law_unproven_grave_findings_are_rejected(
    files: Seq<RepoFileView>,
    set: EvidenceSetView,
    finding: FindingView,
)
    ensures
        finding.grounding is None ==> rejection(files, set, finding) is Some,
        finding.grounding matches Some(g) ==> {
            &&& (finding.severity == Severity::P0 || finding.severity == Severity::P1)
                && g.reproduction is None && g.proof_text is None ==> rejection(
                files,
                set,
                finding,
            ) is Some
            &&& g.evidence.len() == 0 ==> rejection(files, set, finding) is Some
            &&& blank(g.claim) || blank(g.causal_path) || blank(g.test_assessment)
                ==> rejection(files, set, finding) is Some
            &&& forall|k: int|
                0 <= k < g.evidence.len() && !evidence_matches(
                    files,
                    set,
                    #[trigger] g.evidence[k],
                ) ==> rejection(files, set, finding) is Some
            &&& set.shown.len() == 0 ==> rejection(files, set, finding) is Some
        },
{
    if let Some(g) = finding.grounding {
        if set.shown.len() == 0 && cites_change(set, g.evidence) {
            let k = choose|k: int| 0 <= k < g.evidence.len() && shows(set, #[trigger] g.evidence[k]);
            assert(shown_at(set.shown, g.evidence[k].side, g.evidence[k].path, g.evidence[k].line)
                is None);
        }
    }
}

/// A piece of evidence of a line that the diff shows matches exactly if it quotes that
/// line, however it is spaced, and gives a reason; the repository is not asked.
pub proof fn law_evidence_of_the_diff_quotes_it(
    files: Seq<RepoFileView>,
    set: EvidenceSetView,
    e: EvidenceView,
)
    requires
        shown_at(set.shown, e.side, e.path, e.line) is Some,
    ensures
        evidence_matches(files, set, e) <==> e.line > 0 && !blank(e.excerpt) && !blank(e.reason)
            && normalized(shown_at(set.shown, e.side, e.path, e.line)->0) == normalized(e.excerpt),
        evidence_matches(files, set, e) == evidence_matches(Seq::empty(), set, e),
{
}

/// A piece of evidence of a line that the diff does not show matches exactly if it is of
/// the new side, and the first file with its path was read whole, has the line and is
/// quoted, however it is spaced.
pub proof fn law_other_evidence_quotes_the_repository(
    files: Seq<RepoFileView>,
    set: EvidenceSetView,
    e: EvidenceView,
    i: int,
)
    requires
        shown_at(set.shown, e.side, e.path, e.line) is None,
        0 <= i < files.len(),
        files[i].path == e.path,
        forall|j: int| 0 <= j < i ==> (#[trigger] files[j]).path != e.path,
    ensures
        evidence_matches(files, set, e) <==> ({
            let all = lines_of(files[i].text);
            &&& e.side == FindingEvidenceSide::New
            &&& files[i].complete
            &&& 1 <= e.line <= all.len()
            &&& normalized(all[e.line - 1]) == normalized(e.excerpt)
            &&& !blank(e.excerpt) && !blank(e.reason)
        }),
{
    lemma_first_file(files, e.path, 0, i);
}

proof fn lemma_first_file(files: Seq<RepoFileView>, path: Seq<char>, from: int, i: int)
    requires
        0 <= from <= i < files.len(),
        files[i].path == path,
        forall|j: int| 0 <= j < i ==> (#[trigger] files[j]).path != path,
    ensures
        file_from(files, path, from) == Some(files[i]),
    decreases i - from,
{
    if from < i {
        assert(files[from].path != path);
        lemma_first_file(files, path, from + 1, i);
    }
}

proof fn lemma_no_file(files: Seq<RepoFileView>, path: Seq<char>, from: int)
    requires
        0 <= from,
        forall|j: int| 0 <= j < files.len() ==> (#[trigger] files[j]).path != path,
    ensures
        file_from(files, path, from) is None,
    decreases files.len() - from,
{
    if from < files.len() {
        assert(files[from].path != path);
        lemma_no_file(files, path, from + 1);
    }
}

/// Evidence of a file that was not read and that the diff does not show does not match.
pub proof fn law_evidence_of_unread_files_does_not_match(
    files: Seq<RepoFileView>,
    set: EvidenceSetView,
    e: EvidenceView,
)
    requires
        shown_at(set.shown, e.side, e.path, e.line) is None,
        forall|j: int| 0 <= j < files.len() ==> (#[trigger] files[j]).path != e.path,
    ensures
        !evidence_matches(files, set, e),
{
    lemma_no_file(files, e.path, 0);
}

/// What a finding is held against is the text of the first file with its path.
pub proof fn law_findings_are_held_against_their_file(
    files: Seq<RepoFileView>,
    path: Seq<char>,
    i: int,
)
    requires
        0 <= i < files.len(),
        files[i].path == path,
        forall|j: int| 0 <= j < i ==> (#[trigger] files[j]).path != path,
    ensures
        finding_source(files, Some(path)) == files[i].text,
        finding_source(files, None) == Seq::<char>::empty(),
{
    lemma_first_file(files, path, 0, i);
}

/// A finding sounds uncertain exactly by one of a few words, in its claim or its detail, in
/// either case of letters.
pub proof fn law_uncertain_words(text: Seq<char>, before: Seq<char>, after: Seq<char>)
    ensures
        sounds_uncertain(before + " may "@ + after),
        sounds_uncertain(before + " might "@ + after),
        sounds_uncertain(before + " could "@ + after),
        sounds_uncertain(before + "hypothetical"@ + after),
        sounds_uncertain(before + "consider "@ + after),
        sounds_uncertain(text) ==> has_text(text, " may "@) || has_text(text, " might "@)
            || has_text(text, " could "@) || has_text(text, "hypothetical"@) || has_text(
            text,
            "consider "@,
        ),
{
    lemma_stands_between(before, " may "@, after);
    lemma_stands_between(before, " might "@, after);
    lemma_stands_between(before, " could "@, after);
    lemma_stands_between(before, "hypothetical"@, after);
    lemma_stands_between(before, "consider "@, after);
}

proof fn lemma_stands_between(before: Seq<char>, part: Seq<char>, after: Seq<char>)
    ensures
        has_text(before + part + after, part),
{
    let all = before + part + after;
    let at = before.len() as int;
    assert(all.subrange(at, at + part.len()) =~= part);
    assert(crate::text::occurs_at(all, part, at));
}

/// What becomes of a finding without a resolution: without a stable key it is dropped;
/// advice is kept without evidence; any other is kept exactly if the policy asks for
/// evidence of it and it rests on evidence.
pub proof fn law_findings_are_kept_by_evidence(c: ContextView, finding: FindingView)
    requires
        finding.grounding matches Some(g) ==> g.resolution_disposition is None
            && g.resolution_evidence_summary is None,
    ensures
        ({
            let keyless = finding.grounding matches Some(g) && blank(g.semantic_key);
            let advice = finding.severity == Severity::P4 || finding.classification
                == FindingClassification::ContractAmbiguity || finding.classification
                == FindingClassification::Suggestion;
            &&& keyless ==> verdict_of(c, finding) is Suppress
            &&& !keyless && advice ==> verdict_of(c, finding) == (VerdictView::Keep {
                gate: EvidenceGateResult::NotRequired,
            })
            &&& !keyless && !advice && finding.requires_evidence_gate && rejection(
                c.files,
                c.set,
                finding,
            ) is None ==> verdict_of(c, finding) == (VerdictView::Keep {
                gate: EvidenceGateResult::Passed,
            })
            &&& !keyless && !advice && !finding.requires_evidence_gate ==> verdict_of(
                c,
                finding,
            ) is Suppress
            &&& !keyless && !advice && rejection(c.files, c.set, finding) is Some
                ==> verdict_of(c, finding) is Suppress
            &&& !(verdict_of(c, finding) is Resolve)
        }),
{
}

/// The note on a finding that is dropped names it, and the reason.
pub proof fn law_notes_name_the_finding(c: ContextView, finding: FindingView)
    ensures
        verdict_of(c, finding) matches VerdictView::Suppress { note } ==> has_text(
            note,
            finding.id,
        ),
        verdict_of(c, finding) matches VerdictView::Suppress { note } ==> "Suppressed "@.is_prefix_of(
            note,
        ),
        rejection(c.files, c.set, finding) matches Some(reason) ==> (
        !resolution_requested(finding) && !advisory(finding) && finding.requires_evidence_gate && (
        finding.grounding matches Some(g) ==> !blank(g.semantic_key)) ==> verdict_of(c, finding)
            == (VerdictView::Suppress {
            note: "Suppressed ungrounded finding "@ + finding.id + ": "@ + reason + "."@,
        })),
{
    reveal_strlit("Suppressed ");
    reveal_strlit("Suppressed finding ");
    reveal_strlit("Suppressed uncertain finding ");
    reveal_strlit("Suppressed ungrounded finding ");
    reveal_strlit("Suppressed invalid fixed resolution for ");
    if let VerdictView::Suppress { note } = verdict_of(c, finding) {
        assert(note.take("Suppressed "@.len() as int) =~= "Suppressed "@);
        if finding.grounding matches Some(g) && blank(g.semantic_key) {
            lemma_stands_between(
                "Suppressed finding "@,
                finding.id,
                ": missing stable semantic_key."@,
            );
        } else if resolution_requested(finding) {
            lemma_stands_between(
                "Suppressed invalid fixed resolution for "@,
                finding.id,
                ": exact prior identity, deletion of every prior current-head evidence location, proof covering each complete replacement block, and a non-empty evidence summary are required."@,
            );
        } else if !finding.requires_evidence_gate {
            lemma_stands_between(
                "Suppressed uncertain finding "@,
                finding.id,
                ": confidence is below the high-confidence blocking threshold."@,
            );
        } else {
            let reason = rejection(c.files, c.set, finding)->0;
            lemma_stands_between(
                "Suppressed ungrounded finding "@,
                finding.id,
                ": "@ + reason + "."@,
            );
            assert(note =~= "Suppressed ungrounded finding "@ + finding.id + (": "@ + reason
                + "."@));
        }
    }
}

/// A finding resolves the one that was tracked under its identity exactly if that was open
/// and in a file that changed, and the finding says that it is fixed and by what; all of
/// the earlier evidence was removed, and what replaced it is quoted; some of what is quoted
/// was added; and the finding rests on evidence, as grave as it was before. Otherwise it is
/// dropped.
pub proof fn law_proven_fixes_resolve(
    c: ContextView,
    finding: FindingView,
    g: GroundingView,
    i: int,
)
    requires
        finding.grounding == Some(g),
        !blank(g.semantic_key),
        g.resolution_disposition is Some || g.resolution_evidence_summary is Some,
        0 <= i < c.prior.len(),
        c.prior[i].semantic_fingerprint == finding.semantic_fingerprint,
        forall|j: int|
            0 <= j < i ==> (#[trigger] c.prior[j]).semantic_fingerprint
                != finding.semantic_fingerprint,
    ensures
        ({
            let prior = c.prior[i];
            let fixed = {
                &&& g.resolution_disposition == Some(FindingDisposition::Fixed)
                &&& g.resolution_evidence_summary matches Some(text) && !blank(text)
                &&& prior.disposition == FindingDisposition::StillOpen
                &&& prior.file matches Some(file) && c.changed_files.contains(file)
                &&& prior.grounding matches Some(earlier) && earlier.evidence.len() > 0
                    && forall|k: int|
                    0 <= k < earlier.evidence.len() ==> evidence_replaced(
                        #[trigger] earlier.evidence[k],
                        g.evidence,
                        c.set,
                    )
                &&& exists|k: int|
                    0 <= k < g.evidence.len() && (#[trigger] g.evidence[k]).side
                        == FindingEvidenceSide::New && shows(c.set, g.evidence[k])
                &&& rejection(
                    c.files,
                    c.set,
                    FindingView { severity: prior.severity, ..finding },
                ) is None
            };
            &&& fixed ==> verdict_of(c, finding) == (VerdictView::Resolve {
                severity: prior.severity,
            })
            &&& !fixed ==> verdict_of(c, finding) is Suppress
        }),
{
    lemma_first_prior(c.prior, finding.semantic_fingerprint, 0, i);
    assert(blank(Seq::<char>::empty())) by {
        assert(trimmed(Seq::<char>::empty()) =~= Seq::<char>::empty());
    }
}

proof fn lemma_first_prior(prior: Seq<PriorView>, fingerprint: Seq<char>, from: int, i: int)
    requires
        0 <= from <= i < prior.len(),
        prior[i].semantic_fingerprint == fingerprint,
        forall|j: int| 0 <= j < i ==> (#[trigger] prior[j]).semantic_fingerprint != fingerprint,
    ensures
        prior_from(prior, fingerprint, from) == Some(prior[i]),
    decreases i - from,
{
    if from < i {
        assert(prior[from].semantic_fingerprint != fingerprint);
        lemma_first_prior(prior, fingerprint, from + 1, i);
    }
}

/// A finding that asks for a resolution of what was never tracked is dropped.
pub proof fn law_unknown_findings_are_not_resolved(c: ContextView, finding: FindingView)
    requires
        finding.grounding matches Some(g) && (g.resolution_disposition is Some
            || g.resolution_evidence_summary is Some),
        forall|j: int|
            0 <= j < c.prior.len() ==> (#[trigger] c.prior[j]).semantic_fingerprint
                != finding.semantic_fingerprint,
    ensures
        verdict_of(c, finding) is Suppress,
{
    lemma_no_prior(c.prior, finding.semantic_fingerprint, 0);
}

proof fn lemma_no_prior(prior: Seq<PriorView>, fingerprint: Seq<char>, from: int)
    requires
        0 <= from,
        forall|j: int|
            0 <= j < prior.len() ==> (#[trigger] prior[j]).semantic_fingerprint != fingerprint,
    ensures
        prior_from(prior, fingerprint, from) is None,
    decreases prior.len() - from,
{
    if from < prior.len() {
        assert(prior[from].semantic_fingerprint != fingerprint);
        lemma_no_prior(prior, fingerprint, from + 1);
    }
}

/// Earlier evidence was replaced exactly if it was of the new side, the diff removes the
/// line that it quotes, and all that replaced that line is quoted.
pub proof fn law_replaced_evidence_was_removed(
    e: EvidenceView,
    evidence: Seq<EvidenceView>,
    set: EvidenceSetView,
)
    ensures
        evidence_replaced(e, evidence, set) <==> ({
            &&& e.side == FindingEvidenceSide::New
            &&& shown_at(set.shown, FindingEvidenceSide::Old, e.path, e.line) matches Some(line)
                && normalized(line) == normalized(e.excerpt)
            &&& replacement_checked(
                set,
                EvidenceView {
                    path: e.path,
                    side: FindingEvidenceSide::Old,
                    line: e.line,
                    excerpt: e.excerpt,
                    reason: e.reason,
                },
                evidence,
            )
        }),
{
}

/// Findings are grounded on their own, in their order: what becomes of two lists together
/// is what becomes of each.
pub proof fn law_findings_are_grounded_on_their_own(
    c: ContextView,
    a: Seq<FindingView>,
    b: Seq<FindingView>,
)
    ensures
        grounded(c, a + b).findings == grounded(c, a).findings + grounded(c, b).findings,
        grounded(c, a + b).gates == grounded(c, a).gates + grounded(c, b).gates,
        grounded(c, a + b).resolutions == grounded(c, a).resolutions + grounded(c, b).resolutions,
        grounded(c, a + b).notes == grounded(c, a).notes + grounded(c, b).notes,
    decreases b.len(),
{
    if b.len() == 0 {
        assert(a + b =~= a);
        assert(grounded(c, a).findings + grounded(c, b).findings =~= grounded(c, a).findings);
        assert(grounded(c, a).gates + grounded(c, b).gates =~= grounded(c, a).gates);
        assert(grounded(c, a).resolutions + grounded(c, b).resolutions =~= grounded(
            c,
            a,
        ).resolutions);
        assert(grounded(c, a).notes + grounded(c, b).notes =~= grounded(c, a).notes);
    } else {
        assert((a + b).drop_last() =~= a + b.drop_last());
        assert((a + b).last() == b.last());
        law_findings_are_grounded_on_their_own(c, a, b.drop_last());
        let x = grounded(c, a);
        let y = grounded(c, b.drop_last());
        let all = grounded(c, a + b);
        let z = grounded(c, b);
        assert(all.findings =~= x.findings + z.findings);
        assert(all.gates =~= x.gates + z.gates);
        assert(all.resolutions =~= x.resolutions + z.resolutions);
        assert(all.notes =~= x.notes + z.notes);
    }
}

/// What becomes of one finding: one that is kept stands among the findings unchanged, with
/// what became of its evidence; one that resolves another stands among the resolutions, as
/// grave as that, with its summary; one that is dropped leaves its note alone.
pub proof fn law_one_finding_is_grounded(c: ContextView, f: FindingView)
    ensures
        ({
            let all = grounded(c, seq![f]);
            match verdict_of(c, f) {
                VerdictView::Keep { gate } => all.findings == seq![f] && all.gates == seq![gate]
                    && all.resolutions.len() == 0 && all.notes.len() == 0,
                VerdictView::Resolve { severity } => all.findings.len() == 0 && all.gates.len()
                    == 0 && all.notes.len() == 0 && all.resolutions.len() == 1
                    && all.resolutions[0].finding == (FindingView { severity, ..f })
                    && all.resolutions[0].evidence_summary == trimmed(resolution_summary(f)),
                VerdictView::Suppress { note } => all.findings.len() == 0 && all.gates.len() == 0
                    && all.resolutions.len() == 0 && all.notes == seq![note],
            }
        }),
        grounded(c, Seq::empty()).findings.len() == 0,
        grounded(c, Seq::empty()).resolutions.len() == 0,
        grounded(c, Seq::empty()).notes.len() == 0,
{
    assert(seq![f].drop_last() =~= Seq::empty());
    reveal_with_fuel(grounded, 2);
    let all = grounded(c, seq![f]);
    match verdict_of(c, f) {
        VerdictView::Keep { gate } => {
            assert(all.findings =~= seq![f]);
            assert(all.gates =~= seq![gate]);
        },
        VerdictView::Resolve { severity } => {},
        VerdictView::Suppress { note } => {
            assert(all.notes =~= seq![note]);
        },
    }
}

} // verus!
