//! Claims that the repository or the platform disproves.
use vstd::prelude::*;

use crate::angles::{runs, runs_from, WordKind};
use crate::diff::{
    evidence_views, normalize_evidence_line, normalized, EvidenceView, FindingEvidence,
    FindingEvidenceSide,
};
use crate::findings::{Finding, FindingView, GroundingView};
use crate::permissions::{
    before_hash, declares_from, effective_write, without_hash, workflow_declares_trigger,
    workflow_has_effective_write_for_step,
};
use crate::split::{lines_of, trim, trimmed, words, words_of};
use crate::text::{
    chars_of, concat2, concat_all, contains, has_char, has_text, lowercase, same_text, starts_with,
    text_of, to_lowercase, views,
};

verus! {

// ---------------------------------------------------------------------------
// What a claim says
// ---------------------------------------------------------------------------

/// The text with a space for each colon.
pub open spec fn spaced(value: Seq<char>) -> Seq<char> {
    value.map_values(
        |c: char|
            if c == ':' {
                ' '
            } else {
                c
            },
    )
}

fn with_spaces(value: &str) -> (r: String)
    ensures
        r@ == spaced(value@),
{
    let v = chars_of(value);
    let mut r: Vec<char> = Vec::new();
    let mut i: usize = 0;
    while i < v.len()
        invariant
            i <= v@.len(),
            r@ == spaced(v@).take(i as int),
        decreases v@.len() - i,
    {
        r.push(
            if v[i] == ':' {
                ' '
            } else {
                v[i]
            },
        );
        proof {
            assert(r@ =~= spaced(v@).take(i + 1));
        }
        i += 1;
    }
    proof {
        assert(spaced(v@).take(v@.len() as int) =~= spaced(v@));
        assert(r@.subrange(0, r@.len() as int) =~= r@);
    }
    text_of(&r, 0, r.len())
}

/// The claim says of this spelling of a value that it is not there.
pub open spec fn says_absent(claim: Seq<char>, value: Seq<char>) -> bool {
    has_text(claim, "lacks "@ + value) || has_text(claim, "missing "@ + value) || has_text(
        claim,
        "omits "@ + value,
    ) || has_text(claim, value + " is missing"@) || has_text(claim, value + " is absent"@)
        || has_text(claim, "does not pass "@ + value) || has_text(claim, "does not set "@ + value)
        || has_text(claim, "does not grant "@ + value)
}

/// The claim says of a value that it is not there.
pub open spec fn names_absent(claim: Seq<char>, value: Seq<char>) -> bool {
    let claim = normalized(lowercase(claim));
    says_absent(claim, value) || says_absent(claim, spaced(value))
}

fn has_phrase(claim: &str, before: &str, value: &str, after: &str) -> (r: bool)
    ensures
        r == has_text(claim@, before@ + value@ + after@),
{
    let phrase = concat2(before, value);
    let phrase = concat2(phrase.as_str(), after);
    contains(claim, phrase.as_str())
}

fn claim_says_absent(claim: &str, value: &str) -> (r: bool)
    ensures
        r == says_absent(claim@, value@),
{
    proof {
        reveal_strlit("");
        assert("lacks "@ + value@ + ""@ =~= "lacks "@ + value@);
        assert("missing "@ + value@ + ""@ =~= "missing "@ + value@);
        assert("omits "@ + value@ + ""@ =~= "omits "@ + value@);
        assert(""@ + value@ + " is missing"@ =~= value@ + " is missing"@);
        assert(""@ + value@ + " is absent"@ =~= value@ + " is absent"@);
        assert("does not pass "@ + value@ + ""@ =~= "does not pass "@ + value@);
        assert("does not set "@ + value@ + ""@ =~= "does not set "@ + value@);
        assert("does not grant "@ + value@ + ""@ =~= "does not grant "@ + value@);
    }
    has_phrase(claim, "lacks ", value, "") || has_phrase(claim, "missing ", value, "")
        || has_phrase(claim, "omits ", value, "") || has_phrase(claim, "", value, " is missing")
        || has_phrase(claim, "", value, " is absent") || has_phrase(
        claim,
        "does not pass ",
        value,
        "",
    ) || has_phrase(claim, "does not set ", value, "") || has_phrase(
        claim,
        "does not grant ",
        value,
        "",
    )
}

/// Whether the claim says of a value that it is not there.
pub fn claim_names_value_as_absent(claim: &str, value: &str) -> (r: bool)
    ensures
        r == names_absent(claim@, value@),
{
    let lower = to_lowercase(claim);
    let claim = normalize_evidence_line(lower.as_str());
    if claim_says_absent(claim.as_str(), value) {
        return true;
    }
    let other = with_spaces(value);
    claim_says_absent(claim.as_str(), other.as_str())
}

/// The claim says that a workflow runs on a trigger.
pub open spec fn asserts_trigger(claim: Seq<char>, trigger: Seq<char>) -> bool {
    has_text(claim, "runs on "@ + trigger) || has_text(claim, "triggered by "@ + trigger)
        || has_text(claim, trigger + " trigger runs"@) || has_text(claim, trigger + " event runs"@)
}

/// Whether the claim says that a workflow runs on a trigger.
pub fn claim_asserts_trigger_present(claim: &str, trigger: &str) -> (r: bool)
    ensures
        r == asserts_trigger(claim@, trigger@),
{
    let first = concat2("runs on ", trigger);
    let second = concat2("triggered by ", trigger);
    let third = concat2(trigger, " trigger runs");
    let fourth = concat2(trigger, " event runs");
    contains(claim, first.as_str()) || contains(claim, second.as_str()) || contains(
        claim,
        third.as_str(),
    ) || contains(claim, fourth.as_str())
}

/// The claim says that a shallow checkout by itself keeps a fetch from working.
pub open spec fn blames_shallow_checkout(claim: Seq<char>) -> bool {
    (has_text(claim, "fails solely because"@) && has_text(claim, "checkout is shallow"@))
        || has_text(claim, "shallow checkout alone prevents"@)
}

/// Whether the claim says that a shallow checkout by itself keeps a fetch from working.
pub fn claim_asserts_shallow_checkout_alone_prevents_fetch(claim: &str) -> (r: bool)
    ensures
        r == blames_shallow_checkout(claim@),
{
    (contains(claim, "fails solely because") && contains(claim, "checkout is shallow"))
        || contains(claim, "shallow checkout alone prevents")
}

// ---------------------------------------------------------------------------
// What a line defines
// ---------------------------------------------------------------------------

/// The line assigns to the value, or is the assignment that the value spells out.
pub open spec fn defines_value(line: Seq<char>, value: Seq<char>) -> bool {
    let line = lowercase(trimmed(before_hash(line)));
    if value.contains(':') {
        concat_all(words_of(line)) == value
    } else {
        (value + ":"@).is_prefix_of(line) || (value + "="@).is_prefix_of(line)
    }
}

/// The text without its space.
fn without_space(text: &str) -> (r: String)
    ensures
        r@ == concat_all(words_of(text@)),
{
    let parts = words(text);
    let ghost all = views(parts@);
    let mut r = String::new();
    let mut i: usize = 0;
    while i < parts.len()
        invariant
            i <= parts@.len(),
            all == views(parts@),
            r@ == concat_all(all.take(i as int)),
        decreases parts@.len() - i,
    {
        proof {
            assert(all.take(i + 1).drop_last() =~= all.take(i as int));
            assert(all.take(i + 1).last() == parts@[i as int]@);
        }
        r.append(parts[i].as_str());
        i += 1;
    }
    proof {
        assert(all.take(all.len() as int) =~= all);
    }
    r
}

/// Whether the line assigns to the value, or is the assignment that the value spells out.
pub fn evidence_line_defines_value(line: &str, value: &str) -> (r: bool)
    ensures
        r == defines_value(line@, value@),
{
    let code = without_hash(line);
    let code = trim(code.as_str());
    let code = to_lowercase(code.as_str());
    if has_char(value, ':') {
        let bare = without_space(code.as_str());
        return same_text(bare.as_str(), value);
    }
    let colon = concat2(value, ":");
    let equals = concat2(value, "=");
    starts_with(code.as_str(), colon.as_str()) || starts_with(code.as_str(), equals.as_str())
}

// ---------------------------------------------------------------------------
// Evidence against a claim
// ---------------------------------------------------------------------------

/// An excerpt, in lower case, has the text.
pub open spec fn excerpts_have(evidence: Seq<EvidenceView>, text: Seq<char>) -> bool {
    exists|k: int|
        0 <= k < evidence.len() && has_text(lowercase((#[trigger] evidence[k]).excerpt), text)
}

fn some_excerpt_has(evidence: &Vec<FindingEvidence>, text: &str) -> (r: bool)
    ensures
        r == excerpts_have(evidence_views(evidence@), text@),
{
    let ghost all = evidence_views(evidence@);
    let mut i: usize = 0;
    while i < evidence.len()
        invariant
            i <= evidence@.len(),
            all == evidence_views(evidence@),
            forall|k: int|
                0 <= k < i ==> !has_text(lowercase((#[trigger] all[k]).excerpt), text@),
        decreases evidence@.len() - i,
    {
        proof {
            assert(all[i as int] == evidence@[i as int]@);
        }
        let lower = to_lowercase(evidence[i].excerpt.as_str());
        if contains(lower.as_str(), text) {
            return true;
        }
        i += 1;
    }
    false
}

/// The excerpt fetches one commit of a remote by itself.
pub open spec fn fetches_by_itself(excerpt: Seq<char>) -> bool {
    has_text(excerpt, "git fetch"@) && has_text(excerpt, "--depth=1"@) && has_text(
        excerpt,
        " origin "@,
    )
}

/// An excerpt, in lower case, fetches one commit of a remote by itself.
pub open spec fn excerpts_fetch(evidence: Seq<EvidenceView>) -> bool {
    exists|k: int|
        0 <= k < evidence.len() && fetches_by_itself(lowercase((#[trigger] evidence[k]).excerpt))
}

fn some_excerpt_fetches(evidence: &Vec<FindingEvidence>) -> (r: bool)
    ensures
        r == excerpts_fetch(evidence_views(evidence@)),
{
    let ghost all = evidence_views(evidence@);
    let mut i: usize = 0;
    while i < evidence.len()
        invariant
            i <= evidence@.len(),
            all == evidence_views(evidence@),
            forall|k: int|
                0 <= k < i ==> !fetches_by_itself(lowercase((#[trigger] all[k]).excerpt)),
        decreases evidence@.len() - i,
    {
        proof {
            assert(all[i as int] == evidence@[i as int]@);
        }
        let lower = to_lowercase(evidence[i].excerpt.as_str());
        let lower = lower.as_str();
        if contains(lower, "git fetch") && contains(lower, "--depth=1") && contains(
            lower,
            " origin ",
        ) {
            return true;
        }
        i += 1;
    }
    false
}

/// The evidence is of the new line that the finding is at.
pub open spec fn at_finding(e: EvidenceView, file: Option<Seq<char>>, line: Option<u32>) -> bool {
    e.side == FindingEvidenceSide::New && file == Some(e.path) && line == Some(e.line)
}

fn is_at_finding(e: &FindingEvidence, finding: &Finding) -> (r: bool)
    ensures
        r == at_finding(e@, finding@.file, finding@.line),
{
    let same_file = match &finding.file {
        Some(file) => same_text(file.as_str(), e.path.as_str()),
        None => false,
    };
    let same_line = match finding.line {
        Some(line) => line == e.line,
        None => false,
    };
    e.side == FindingEvidenceSide::New && same_file && same_line
}

/// The excerpt hands the arguments behind the first ones to the parser of flags.
pub open spec fn parses_rest(excerpt: Seq<char>) -> bool {
    let bare = lowercase(concat_all(words_of(excerpt)));
    has_text(bare, "parseflags(fs,args["@) || has_text(bare, "parsepaginationflags(fs,args["@)
}

/// The line that the finding is at hands the arguments behind the first ones on.
pub open spec fn rest_is_parsed(
    evidence: Seq<EvidenceView>,
    file: Option<Seq<char>>,
    line: Option<u32>,
) -> bool {
    exists|k: int|
        0 <= k < evidence.len() && at_finding(#[trigger] evidence[k], file, line) && parses_rest(
            evidence[k].excerpt,
        )
}

fn finding_line_parses_rest(evidence: &Vec<FindingEvidence>, finding: &Finding) -> (r: bool)
    ensures
        r == rest_is_parsed(evidence_views(evidence@), finding@.file, finding@.line),
{
    let ghost all = evidence_views(evidence@);
    let mut i: usize = 0;
    while i < evidence.len()
        invariant
            i <= evidence@.len(),
            all == evidence_views(evidence@),
            forall|k: int|
                0 <= k < i ==> !(at_finding(#[trigger] all[k], finding@.file, finding@.line)
                    && parses_rest(all[k].excerpt)),
        decreases evidence@.len() - i,
    {
        proof {
            assert(all[i as int] == evidence@[i as int]@);
        }
        if is_at_finding(&evidence[i], finding) {
            let bare = without_space(evidence[i].excerpt.as_str());
            let bare = to_lowercase(bare.as_str());
            if contains(bare.as_str(), "parseflags(fs,args[") || contains(
                bare.as_str(),
                "parsepaginationflags(fs,args[",
            ) {
                return true;
            }
        }
        i += 1;
    }
    false
}

/// The line that the finding is at defines the value.
pub open spec fn defined_at_finding(
    evidence: Seq<EvidenceView>,
    file: Option<Seq<char>>,
    line: Option<u32>,
    value: Seq<char>,
) -> bool {
    exists|k: int|
        0 <= k < evidence.len() && at_finding(#[trigger] evidence[k], file, line) && defines_value(
            evidence[k].excerpt,
            value,
        )
}

fn is_defined_at_finding(evidence: &Vec<FindingEvidence>, finding: &Finding, value: &str) -> (r:
    bool)
    ensures
        r == defined_at_finding(evidence_views(evidence@), finding@.file, finding@.line, value@),
{
    let ghost all = evidence_views(evidence@);
    let mut i: usize = 0;
    while i < evidence.len()
        invariant
            i <= evidence@.len(),
            all == evidence_views(evidence@),
            forall|k: int|
                0 <= k < i ==> !(at_finding(#[trigger] all[k], finding@.file, finding@.line)
                    && defines_value(all[k].excerpt, value@)),
        decreases evidence@.len() - i,
    {
        proof {
            assert(all[i as int] == evidence@[i as int]@);
        }
        if is_at_finding(&evidence[i], finding) && evidence_line_defines_value(
            evidence[i].excerpt.as_str(),
            value,
        ) {
            return true;
        }
        i += 1;
    }
    false
}

/// The word is the name of a value or an assignment.
pub open spec fn value_word(word: Seq<char>) -> bool {
    word.contains('_') || word.contains(':')
}

/// The claim says that a value is not there, and the line that the finding is at defines
/// it.
pub open spec fn absence_disproved(finding: FindingView, claim: Seq<char>) -> bool {
    let words = runs_from(claim, WordKind::Value, 0);
    finding.grounding matches Some(grounding) && exists|i: int|
        0 <= i < words.len() && value_word(#[trigger] words[i]) && names_absent(
            claim,
            lowercase(words[i]),
        ) && defined_at_finding(
            grounding.evidence,
            finding.file,
            finding.line,
            lowercase(words[i]),
        )
}

/// Whether the claim says that a value is not there that the line the finding is at
/// defines.
pub fn finding_location_evidence_disproves_absence(finding: &Finding, claim: &str) -> (r: bool)
    ensures
        r == absence_disproved(finding@, claim@),
{
    let grounding = match &finding.grounding {
        Some(grounding) => grounding,
        None => {
            return false;
        },
    };
    let values = runs(claim, WordKind::Value);
    let ghost all = views(values@);
    let mut i: usize = 0;
    while i < values.len()
        invariant
            i <= values@.len(),
            all == views(values@),
            all == runs_from(claim@, WordKind::Value, 0),
            finding@.grounding == Some(grounding@),
            forall|k: int|
                0 <= k < i ==> !(value_word(#[trigger] all[k]) && names_absent(
                    claim@,
                    lowercase(all[k]),
                ) && defined_at_finding(
                    grounding@.evidence,
                    finding@.file,
                    finding@.line,
                    lowercase(all[k]),
                )),
        decreases values@.len() - i,
    {
        let value = values[i].as_str();
        proof {
            assert(all[i as int] == value@);
        }
        if has_char(value, '_') || has_char(value, ':') {
            let lower = to_lowercase(value);
            if claim_names_value_as_absent(claim, lower.as_str()) && is_defined_at_finding(
                &grounding.evidence,
                finding,
                lower.as_str(),
            ) {
                return true;
            }
        }
        i += 1;
    }
    false
}

// ---------------------------------------------------------------------------
// Contracts
// ---------------------------------------------------------------------------

/// The triggers of workflows that claims are held against.
pub open spec fn known_triggers() -> Seq<Seq<char>> {
    seq![
        "workflow_dispatch"@,
        "workflow_call"@,
        "pull_request_target"@,
        "pull_request"@,
        "schedule"@,
        "push"@,
    ]
}

/// The claim says that the workflow runs on this trigger, which it does not declare.
pub open spec fn trigger_disproved(claim: Seq<char>, source: Seq<char>, trigger: Seq<char>) -> bool {
    asserts_trigger(claim, trigger) && !declares_from(lines_of(source), trigger, false, 0)
}

/// The claim says that the workflow runs on a trigger that it does not declare.
pub open spec fn some_trigger_disproved(claim: Seq<char>, source: Seq<char>) -> bool {
    exists|i: int|
        0 <= i < known_triggers().len() && trigger_disproved(
            claim,
            source,
            #[trigger] known_triggers()[i],
        )
}

fn claims_missing_trigger(claim: &str, source: &str) -> (r: bool)
    ensures
        r == some_trigger_disproved(claim@, source@),
{
    let mut triggers: Vec<&str> = Vec::new();
    triggers.push("workflow_dispatch");
    triggers.push("workflow_call");
    triggers.push("pull_request_target");
    triggers.push("pull_request");
    triggers.push("schedule");
    triggers.push("push");
    let ghost all = known_triggers();
    let mut i: usize = 0;
    while i < triggers.len()
        invariant
            i <= triggers@.len(),
            all == known_triggers(),
            triggers@.len() == all.len(),
            forall|k: int| 0 <= k < all.len() ==> (#[trigger] triggers@[k])@ == all[k],
            forall|k: int| 0 <= k < i ==> !trigger_disproved(claim@, source@, #[trigger] all[k]),
        decreases triggers@.len() - i,
    {
        let trigger = triggers[i];
        proof {
            assert(all[i as int] == trigger@);
        }
        if claim_asserts_trigger_present(claim, trigger) && !workflow_declares_trigger(
            source,
            trigger,
        ) {
            return true;
        }
        i += 1;
    }
    false
}

/// The claim says that uploading an artifact needs a permission that it does not need.
pub open spec fn upload_disproved(claim: Seq<char>, evidence: Seq<EvidenceView>) -> bool {
    &&& has_text(claim, "upload-artifact"@)
    &&& has_text(claim, "actions:write"@)
    &&& has_text(claim, "requires actions:write"@) || (has_text(claim, "authenticates with"@)
        && has_text(claim, "github_token"@))
    &&& excerpts_have(evidence, "actions/upload-artifact"@)
}

/// The claim says that a module needs a file that it does not need.
pub open spec fn package_disproved(claim: Seq<char>, evidence: Seq<EvidenceView>) -> bool {
    &&& has_text(claim, "python"@)
    &&& has_text(claim, "__init__.py"@)
    &&& has_text(claim, "require"@) || has_text(claim, "prevent"@)
    &&& excerpts_have(evidence, "python3 -m"@)
}

/// The claim says that a permission is missing that the workflow grants where it is needed.
pub open spec fn packages_disproved(claim: Seq<char>, source: Seq<char>) -> bool {
    &&& has_text(claim, "packages"@)
    &&& has_text(claim, "write"@)
    &&& names_absent(claim, "packages:write"@)
    &&& effective_write(source, "packages"@, "imagetools create"@) || effective_write(
        source,
        "packages"@,
        "uses: ./.github/workflows/"@,
    )
}

/// The file is a workflow.
pub open spec fn workflow_file(file: Option<Seq<char>>) -> bool {
    file matches Some(path) && ".github/workflows/"@.is_prefix_of(path)
}

/// The repository or the platform disproves what the finding claims, given the source of
/// the file that it is in.
pub open spec fn contract_contradicted(finding: FindingView, source: Seq<char>) -> bool {
    finding.grounding matches Some(grounding) && {
        let claim = lowercase(grounding.claim);
        let evidence = grounding.evidence;
        ||| upload_disproved(claim, evidence)
        ||| package_disproved(claim, evidence)
        ||| workflow_file(finding.file) && some_trigger_disproved(claim, source)
        ||| blames_shallow_checkout(claim) && excerpts_fetch(evidence)
        ||| has_text(claim, "parseflags"@) && has_text(claim, "positional"@) && rest_is_parsed(
            evidence,
            finding.file,
            finding.line,
        )
        ||| packages_disproved(claim, source)
        ||| absence_disproved(finding, claim)
    }
}

/// Whether the repository or the platform disproves what the finding claims, given the
/// source of the file that it is in.
pub fn contradicts_checked_contract(finding: &Finding, source: &str) -> (r: bool)
    ensures
        r == contract_contradicted(finding@, source@),
{
    let grounding = match &finding.grounding {
        Some(grounding) => grounding,
        None => {
            return false;
        },
    };
    let lower = to_lowercase(grounding.claim.as_str());
    let claim = lower.as_str();
    let evidence = &grounding.evidence;
    if contains(claim, "upload-artifact") && contains(claim, "actions:write") && (contains(
        claim,
        "requires actions:write",
    ) || (contains(claim, "authenticates with") && contains(claim, "github_token")))
        && some_excerpt_has(evidence, "actions/upload-artifact") {
        return true;
    }
    if contains(claim, "python") && contains(claim, "__init__.py") && (contains(claim, "require")
        || contains(claim, "prevent")) && some_excerpt_has(evidence, "python3 -m") {
        return true;
    }
    let is_workflow = match &finding.file {
        Some(path) => starts_with(path.as_str(), ".github/workflows/"),
        None => false,
    };
    if is_workflow && claims_missing_trigger(claim, source) {
        return true;
    }
    if claim_asserts_shallow_checkout_alone_prevents_fetch(claim) && some_excerpt_fetches(
        evidence,
    ) {
        return true;
    }
    if contains(claim, "parseflags") && contains(claim, "positional") && finding_line_parses_rest(
        evidence,
        finding,
    ) {
        return true;
    }
    if contains(claim, "packages") && contains(claim, "write") && claim_names_value_as_absent(
        claim,
        "packages:write",
    ) && (workflow_has_effective_write_for_step(source, "packages", "imagetools create")
        || workflow_has_effective_write_for_step(
        source,
        "packages",
        "uses: ./.github/workflows/",
    )) {
        return true;
    }
    finding_location_evidence_disproves_absence(finding, claim)
}

// ---------------------------------------------------------------------------
// What holds of it
// ---------------------------------------------------------------------------

/// What disproves a claim: each of these alone does, whatever else is claimed.
pub proof fn law_disproved_claims(finding: FindingView, source: Seq<char>, g: GroundingView, k: int)
    requires
        finding.grounding == Some(g),
        0 <= k < g.evidence.len(),
    ensures
        ({
            let claim = lowercase(g.claim);
            let excerpt = lowercase(g.evidence[k].excerpt);
            &&& has_text(claim, "upload-artifact"@) && has_text(claim, "requires actions:write"@)
                && has_text(claim, "actions:write"@) && has_text(
                excerpt,
                "actions/upload-artifact"@,
            ) ==> contract_contradicted(finding, source)
            &&& has_text(claim, "upload-artifact"@) && has_text(claim, "actions:write"@)
                && has_text(claim, "authenticates with"@) && has_text(claim, "github_token"@)
                && has_text(excerpt, "actions/upload-artifact"@) ==> contract_contradicted(
                finding,
                source,
            )
            &&& has_text(claim, "python"@) && has_text(claim, "__init__.py"@) && (has_text(
                claim,
                "require"@,
            ) || has_text(claim, "prevent"@)) && has_text(excerpt, "python3 -m"@)
                ==> contract_contradicted(finding, source)
            &&& (has_text(claim, "shallow checkout alone prevents"@) || (has_text(
                claim,
                "fails solely because"@,
            ) && has_text(claim, "checkout is shallow"@))) && has_text(excerpt, "git fetch"@)
                && has_text(excerpt, "--depth=1"@) && has_text(excerpt, " origin "@)
                ==> contract_contradicted(finding, source)
            &&& has_text(claim, "parseflags"@) && has_text(claim, "positional"@)
                && g.evidence[k].side == FindingEvidenceSide::New && finding.file == Some(
                g.evidence[k].path,
            ) && finding.line == Some(g.evidence[k].line) && has_text(
                lowercase(concat_all(words_of(g.evidence[k].excerpt))),
                "parseflags(fs,args["@,
            ) ==> contract_contradicted(finding, source)
        }),
{
    let claim = lowercase(g.claim);
    let excerpt = lowercase(g.evidence[k].excerpt);
    if has_text(excerpt, "actions/upload-artifact"@) {
        assert(excerpts_have(g.evidence, "actions/upload-artifact"@));
    }
    if has_text(excerpt, "python3 -m"@) {
        assert(excerpts_have(g.evidence, "python3 -m"@));
    }
    if fetches_by_itself(excerpt) {
        assert(excerpts_fetch(g.evidence));
    }
    if at_finding(g.evidence[k], finding.file, finding.line) && parses_rest(
        g.evidence[k].excerpt,
    ) {
        assert(rest_is_parsed(g.evidence, finding.file, finding.line));
    }
}

/// A claim that a workflow runs on a trigger is disproved exactly if the workflow does not
/// declare it, and a claim about any other file is not.
pub proof fn law_triggers_are_disproved_by_the_workflow(
    finding: FindingView,
    source: Seq<char>,
    g: GroundingView,
    i: int,
)
    requires
        finding.grounding == Some(g),
        0 <= i < known_triggers().len(),
    ensures
        ({
            let claim = lowercase(g.claim);
            let trigger = known_triggers()[i];
            &&& (finding.file matches Some(path) && ".github/workflows/"@.is_prefix_of(path)) && (
            has_text(claim, "runs on "@ + trigger) || has_text(claim, "triggered by "@ + trigger)
                || has_text(claim, trigger + " trigger runs"@) || has_text(
                claim,
                trigger + " event runs"@,
            )) && !declares_from(lines_of(source), trigger, false, 0) ==> contract_contradicted(
                finding,
                source,
            )
        }),
        known_triggers().contains("push"@) && known_triggers().contains("schedule"@)
            && known_triggers().contains("pull_request"@) && known_triggers().contains(
            "pull_request_target"@,
        ) && known_triggers().contains("workflow_call"@) && known_triggers().contains(
            "workflow_dispatch"@,
        ),
{
    let claim = lowercase(g.claim);
    let trigger = known_triggers()[i];
    if trigger_disproved(claim, source, trigger) {
        assert(some_trigger_disproved(claim, source));
    }
    let all = known_triggers();
    assert(all[5] == "push"@ && all[4] == "schedule"@ && all[3] == "pull_request"@ && all[2]
        == "pull_request_target"@ && all[1] == "workflow_call"@ && all[0] == "workflow_dispatch"@);
}

/// A claim is disproved only by what it speaks of: one that speaks neither of uploads, nor
/// of Python packages, triggers, shallow checkouts, positional flags and package
/// permissions, nor of a value as absent, is not disproved, whatever the evidence.
pub proof fn law_other_claims_are_not_disproved(
    finding: FindingView,
    source: Seq<char>,
    g: GroundingView,
)
    requires
        finding.grounding == Some(g),
        ({
            let claim = lowercase(g.claim);
            &&& !has_text(claim, "upload-artifact"@)
            &&& !has_text(claim, "python"@)
            &&& !has_text(claim, "shallow"@)
            &&& !has_text(claim, "parseflags"@)
            &&& !has_text(claim, "packages"@)
            &&& forall|i: int|
                0 <= i < known_triggers().len() ==> !has_text(
                    claim,
                    #[trigger] known_triggers()[i],
                )
            &&& forall|value: Seq<char>| !names_absent(claim, value)
        }),
    ensures
        !contract_contradicted(finding, source),
{
    let claim = lowercase(g.claim);
    if blames_shallow_checkout(claim) {
        reveal_strlit("shallow");
        reveal_strlit("checkout is shallow");
        reveal_strlit("shallow checkout alone prevents");
        if has_text(claim, "checkout is shallow"@) {
            lemma_part_of_part(claim, "checkout is shallow"@, "shallow"@, 12);
        } else {
            lemma_part_of_part(claim, "shallow checkout alone prevents"@, "shallow"@, 0);
        }
    }
    if some_trigger_disproved(claim, source) {
        let i = choose|i: int|
            0 <= i < known_triggers().len() && trigger_disproved(
                claim,
                source,
                #[trigger] known_triggers()[i],
            );
        let t = known_triggers()[i];
        let a = "runs on "@;
        let b = "triggered by "@;
        if has_text(claim, a + t) {
            lemma_part_of_part(claim, a + t, t, a.len() as int);
        } else if has_text(claim, b + t) {
            lemma_part_of_part(claim, b + t, t, b.len() as int);
        } else if has_text(claim, t + " trigger runs"@) {
            lemma_part_of_part(claim, t + " trigger runs"@, t, 0);
        } else {
            lemma_part_of_part(claim, t + " event runs"@, t, 0);
        }
    }
    if absence_disproved(finding, claim) {
        let words = runs_from(claim, WordKind::Value, 0);
        let i = choose|i: int|
            0 <= i < words.len() && value_word(#[trigger] words[i]) && names_absent(
                claim,
                lowercase(words[i]),
            ) && defined_at_finding(
                g.evidence,
                finding.file,
                finding.line,
                lowercase(words[i]),
            );
        assert(names_absent(claim, lowercase(words[i])));
    }
}

proof fn lemma_part_of_part(s: Seq<char>, part: Seq<char>, inner: Seq<char>, by: int)
    requires
        has_text(s, part),
        0 <= by,
        by + inner.len() <= part.len(),
        part.subrange(by, by + inner.len()) =~= inner,
    ensures
        has_text(s, inner),
{
    let at = choose|at: int| crate::text::occurs_at(s, part, at);
    assert(s.subrange(at + by, at + by + inner.len()) =~= inner) by {
        assert forall|j: int| 0 <= j < inner.len() implies #[trigger] s.subrange(
            at + by,
            at + by + inner.len(),
        )[j] == inner[j] by {
            assert(s.subrange(at, at + part.len())[by + j] == part[by + j]);
            assert(part.subrange(by, by + inner.len())[j] == part[by + j]);
        }
    }
    assert(crate::text::occurs_at(s, inner, at + by));
}

/// A line defines a value if it starts with it and a colon or an equals sign, whatever the
/// case of its letters; behind a hash nothing is defined.
pub proof fn law_definitions_start_a_line(value: Seq<char>, rest: Seq<char>)
    requires
        value.len() > 0,
        !value.contains(':'),
        !value.contains('#') && !rest.contains('#'),
        lowercase(value) == value && lowercase(rest) == rest,
        !crate::text::whitespace(value[0]),
        rest.len() > 0 && !crate::text::whitespace(rest.last()),
    ensures
        defines_value(value + ":"@ + rest, value),
        defines_value(value + "="@ + rest, value),
{
    reveal_strlit(":");
    reveal_strlit("=");
    lemma_plain_definition(value, ':', rest);
    lemma_plain_definition(value, '=', rest);
    assert(value + ":"@ + rest =~= value + seq![':'] + rest);
    assert(value + "="@ + rest =~= value + seq!['='] + rest);
    assert(value + ":"@ =~= value + seq![':']);
    assert(value + "="@ =~= value + seq!['=']);
}

proof fn lemma_plain_definition(value: Seq<char>, c: char, rest: Seq<char>)
    requires
        c == ':' || c == '=',
        value.len() > 0,
        !value.contains('#') && !rest.contains('#'),
        lowercase(value) == value && lowercase(rest) == rest,
        !crate::text::whitespace(value[0]),
        rest.len() > 0 && !crate::text::whitespace(rest.last()),
    ensures
        ({
            let line = value + seq![c] + rest;
            lowercase(trimmed(before_hash(line))) == line && (value + seq![c]).is_prefix_of(line)
        }),
{
    let line = value + seq![c] + rest;
    assert(!line.contains('#')) by {
        if line.contains('#') {
            let j = choose|j: int| 0 <= j < line.len() && line[j] == '#';
            if j < value.len() {
                assert(value[j] == '#');
                assert(value.contains('#'));
            } else if j > value.len() {
                assert(rest[j - value.len() - 1] == '#');
                assert(rest.contains('#'));
            }
        }
    }
    crate::split::law_fields(line, line, '#');
    assert(crate::split::trim_start_of(line) =~= line);
    assert(crate::split::trim_end_of(line) =~= line);
    assert(lowercase(line) =~= line) by {
        assert forall|j: int| 0 <= j < line.len() implies #[trigger] lowercase(line)[j]
            == line[j] by {
            if j < value.len() {
                assert(lowercase(value)[j] == value[j]);
            } else if j > value.len() {
                assert(lowercase(rest)[j - value.len() - 1] == rest[j - value.len() - 1]);
            }
        }
    }
    assert(line.take((value + seq![c]).len() as int) =~= value + seq![c]);
}

/// An excerpt fetches by itself only if it holds all three parts of the command, in either
/// case of its letters; one such excerpt is enough.
pub proof fn law_excerpts_that_fetch(evidence: Seq<EvidenceView>, one: EvidenceView)
    ensures
        !excerpts_fetch(Seq::empty()),
        excerpts_fetch(evidence.push(one)) <==> excerpts_fetch(evidence) || (has_text(
            lowercase(one.excerpt),
            "git fetch"@,
        ) && has_text(lowercase(one.excerpt), "--depth=1"@) && has_text(
            lowercase(one.excerpt),
            " origin "@,
        )),
{
    let more = evidence.push(one);
    assert(more[evidence.len() as int] == one);
    if excerpts_fetch(evidence) {
        let k = choose|k: int|
            0 <= k < evidence.len() && fetches_by_itself(
                lowercase((#[trigger] evidence[k]).excerpt),
            );
        assert(more[k] == evidence[k]);
    }
    if excerpts_fetch(more) && !fetches_by_itself(lowercase(one.excerpt)) {
        let k = choose|k: int|
            0 <= k < more.len() && fetches_by_itself(lowercase((#[trigger] more[k]).excerpt));
        assert(more[k] == evidence[k]);
    }
}

} // verus!
