//! What an agent says became of a finding, recorded in a comment and attested by the
//! status of a commit.
use vstd::prelude::*;

use base64::Engine;
use sha2::Digest;

use crate::json::{
    field, field_views, json_document, json_object, json_text, json_view, parse_json, text_at, Json,
    JsonView,
};
use crate::number::{decimal, decimal_of};
use crate::order::{keys, sort, sorted, Ranked, Sortable};
use crate::pull_request::{ReviewScope, ScopeView};
use crate::records::{
    comment_views, fetch_commit_status_records, status_views, CommentView, CommitStatusRecord,
    IssueCommentRecord, StatusView, AGENT_DISPOSITION_STATUS_PREFIX,
};
use crate::text::{
    ascii_alphanumeric, chars_of, concat2, concat3, contains, find, find_text, first_at, has_text,
    lemma_find_text, occurs_at, opt_view, same_text, substring,
};

verus! {

/// What a recorded disposition starts with.
pub const AGENT_DISPOSITIONS_MARKER_PREFIX: &'static str = "<!-- reviewgate-agent-dispositions ";

/// What a recorded disposition ends with.
pub const AGENT_DISPOSITIONS_MARKER_SUFFIX: &'static str = " -->";

/// What a digest starts with.
pub const AGENT_DISPOSITION_DIGEST_PREFIX: &'static str = "receipt-sha256:";

// ---------------------------------------------------------------------------
// Bytes as text
// ---------------------------------------------------------------------------

/// Bytes in the URL-safe Base64 alphabet, without padding.
pub uninterp spec fn base64_text(bytes: Seq<u8>) -> Seq<char>;

/// The bytes that a text in the URL-safe Base64 alphabet without padding stands for.
pub uninterp spec fn base64_bytes(text: Seq<char>) -> Option<Seq<u8>>;

/// The SHA-256 digest of the bytes of a text, in small hexadecimal digits.
pub uninterp spec fn sha256_hex(text: Seq<char>) -> Seq<char>;

/// A character of the URL-safe Base64 alphabet.
pub open spec fn url_safe(c: char) -> bool {
    ascii_alphanumeric(c) || c == '-' || c == '_'
}

/// All characters are of the URL-safe Base64 alphabet.
pub open spec fn all_url_safe(text: Seq<char>) -> bool {
    forall|i: int| 0 <= i < text.len() ==> url_safe(#[trigger] text[i])
}

/// The bytes that there may be.
pub open spec fn opt_bytes(bytes: Option<Vec<u8>>) -> Option<Seq<u8>> {
    match bytes {
        Some(b) => Some(b@),
        None => None,
    }
}

/// Trusted: `base64::Engine::encode` of the engine `URL_SAFE_NO_PAD`. The text depends on
/// the bytes alone, has no characters but those of the alphabet, and is decoded to the
/// bytes. The length of the text, four thirds of that of the bytes, has to fit.
#[verifier::external_body]
fn encode_base64(bytes: &Vec<u8>) -> (r: String)
    requires
        bytes@.len() <= usize::MAX / 4,
    ensures
        r@ == base64_text(bytes@),
        all_url_safe(r@),
        base64_bytes(r@) == Some(bytes@),
{
    base64::engine::general_purpose::URL_SAFE_NO_PAD.encode(bytes)
}

/// Trusted: `base64::Engine::decode` of the engine `URL_SAFE_NO_PAD`. The bytes, or that
/// the text stands for none, depend on the text alone.
#[verifier::external_body]
fn decode_base64(text: &str) -> (r: Option<Vec<u8>>)
    ensures
        opt_bytes(r) == base64_bytes(text@),
{
    base64::engine::general_purpose::URL_SAFE_NO_PAD.decode(text).ok()
}

/// Trusted: `sha2::Digest::digest` of `sha2::Sha256`, written with its `LowerHex` impl.
/// The digest depends on the text alone.
#[verifier::external_body]
fn sha256(text: &str) -> (r: String)
    ensures
        r@ == sha256_hex(text@),
{
    format!("{:x}", sha2::Sha256::digest(text.as_bytes()))
}

// ---------------------------------------------------------------------------
// Comments that record a disposition
// ---------------------------------------------------------------------------

/// A comment that records what is encoded in `payload`.
pub open spec fn recorded(payload: Seq<char>, finding: Seq<char>) -> Seq<char> {
    AGENT_DISPOSITIONS_MARKER_PREFIX@ + payload + AGENT_DISPOSITIONS_MARKER_SUFFIX@
        + "\nReviewGate agent disposition recorded for `"@ + finding + "`."@
}

/// What is encoded in a comment: none where it has no mark.
pub open spec fn payload_in(body: Seq<char>) -> Result<Option<Seq<char>>, Seq<char>> {
    match find_text(body, AGENT_DISPOSITIONS_MARKER_PREFIX@) {
        None => Ok(None),
        Some(start) => {
            let rest = body.skip(start + AGENT_DISPOSITIONS_MARKER_PREFIX@.len());
            match find_text(rest, AGENT_DISPOSITIONS_MARKER_SUFFIX@) {
                None => Err("malformed ReviewGate agent disposition marker"@),
                Some(end) => Ok(Some(rest.take(end))),
            }
        },
    }
}

/// The bytes that a comment records: none where it has no mark.
pub open spec fn extracted(body: Seq<char>) -> Result<Option<Seq<u8>>, Seq<char>> {
    match payload_in(body) {
        Err(e) => Err(e),
        Ok(None) => Ok(None),
        Ok(Some(payload)) => match base64_bytes(payload) {
            Some(bytes) => Ok(Some(bytes)),
            None => Err("invalid ReviewGate agent disposition encoding"@),
        },
    }
}

/// What is encoded in a comment is what was put there, whatever the finding is called.
pub proof fn law_recorded_payload_is_found(payload: Seq<char>, finding: Seq<char>)
    requires
        all_url_safe(payload),
    ensures
        payload_in(recorded(payload, finding)) == Ok::<Option<Seq<char>>, Seq<char>>(
            Some(payload),
        ),
{
    let prefix = AGENT_DISPOSITIONS_MARKER_PREFIX@;
    let suffix = AGENT_DISPOSITIONS_MARKER_SUFFIX@;
    let body = recorded(payload, finding);
    let rest = body.skip(prefix.len() as int);
    reveal_strlit(" -->");
    assert(body.subrange(0, prefix.len() as int) =~= prefix);
    assert(first_at(body, prefix, 0));
    lemma_find_text(body, prefix, 0);
    let at = payload.len() as int;
    assert(rest =~= payload + suffix + "\nReviewGate agent disposition recorded for `"@ + finding
        + "`."@);
    assert(rest.subrange(at, at + suffix.len()) =~= suffix);
    assert forall|j: int| 0 <= j < at implies !occurs_at(rest, suffix, j) by {
        if occurs_at(rest, suffix, j) {
            assert(rest.subrange(j, j + suffix.len())[0] == suffix[0]);
            assert(rest[j] == payload[j]);
            assert(url_safe(payload[j]));
        }
    }
    assert(first_at(rest, suffix, at));
    lemma_find_text(rest, suffix, at);
    assert(rest.take(at) =~= payload);
}

/// A comment that records the bytes of a disposition of a finding. What is read from it
/// are the bytes.
pub fn encode_agent_disposition_comment(state: &Vec<u8>, finding: &str) -> (r: String)
    requires
        state@.len() <= usize::MAX / 4,
    ensures
        r@ == recorded(base64_text(state@), finding@),
        extracted(r@) == Ok::<Option<Seq<u8>>, Seq<char>>(Some(state@)),
{
    let payload = encode_base64(state);
    proof {
        law_recorded_payload_is_found(payload@, finding@);
    }
    let mut body = AGENT_DISPOSITIONS_MARKER_PREFIX.to_owned();
    body.append(payload.as_str());
    body.append(AGENT_DISPOSITIONS_MARKER_SUFFIX);
    body.append("\nReviewGate agent disposition recorded for `");
    body.append(finding);
    body.append("`.");
    body
}

/// What is encoded in a comment, or what is wrong with its mark.
pub open spec fn payload_result(r: Result<Option<String>, String>) -> Result<
    Option<Seq<char>>,
    Seq<char>,
> {
    match r {
        Ok(p) => Ok(opt_view(p)),
        Err(e) => Err(e@),
    }
}

/// What is encoded in a comment: none where it has no mark.
pub fn agent_disposition_payload(body: &str) -> (r: Result<Option<String>, String>)
    ensures
        payload_result(r) == payload_in(body@),
{
    let start = match find(body, AGENT_DISPOSITIONS_MARKER_PREFIX) {
        Some(start) => start,
        None => {
            return Ok(None);
        },
    };
    let v = chars_of(body);
    let prefix = chars_of(AGENT_DISPOSITIONS_MARKER_PREFIX);
    let n: usize = v.len();
    proof {
        assert(start + prefix@.len() <= n);
    }
    let rest = substring(body, start + prefix.len(), n);
    proof {
        assert(rest@ =~= body@.skip(start + prefix@.len()));
    }
    match find(rest.as_str(), AGENT_DISPOSITIONS_MARKER_SUFFIX) {
        Some(end) => {
            let payload = substring(rest.as_str(), 0, end);
            proof {
                assert(payload@ =~= rest@.take(end as int));
            }
            Ok(Some(payload))
        },
        None => Err("malformed ReviewGate agent disposition marker".to_owned()),
    }
}

/// The bytes that a comment records, or what is wrong with it.
pub open spec fn bytes_result(r: Result<Option<Vec<u8>>, String>) -> Result<
    Option<Seq<u8>>,
    Seq<char>,
> {
    match r {
        Ok(b) => Ok(opt_bytes(b)),
        Err(e) => Err(e@),
    }
}

/// The bytes that a comment records: none where it has no mark.
pub fn extract_agent_disposition_state(body: &str) -> (r: Result<Option<Vec<u8>>, String>)
    ensures
        bytes_result(r) == extracted(body@),
{
    match agent_disposition_payload(body) {
        Err(e) => Err(e),
        Ok(None) => Ok(None),
        Ok(Some(payload)) => match decode_base64(payload.as_str()) {
            Some(bytes) => Ok(Some(bytes)),
            None => Err("invalid ReviewGate agent disposition encoding".to_owned()),
        },
    }
}

/// A comment that records a disposition.
#[derive(Debug, PartialEq, Eq)]
pub struct AgentDispositionComment {
    pub id: u64,
    pub author_login: String,
    pub body: String,
}

/// A comment that records a disposition.
pub struct DispositionView {
    pub id: u64,
    pub author_login: Seq<char>,
    pub body: Seq<char>,
}

impl View for AgentDispositionComment {
    type V = DispositionView;

    open spec fn view(&self) -> DispositionView {
        DispositionView { id: self.id, author_login: self.author_login@, body: self.body@ }
    }
}

/// What comments that record dispositions are.
pub open spec fn disposition_views(s: Seq<AgentDispositionComment>) -> Seq<DispositionView> {
    s.map_values(|c: AgentDispositionComment| c@)
}

impl Ranked for DispositionView {
    open spec fn at_most(self, other: Self) -> bool {
        self.id <= other.id
    }

    proof fn total(a: Self, b: Self) {
    }

    proof fn transitive(a: Self, b: Self, c: Self) {
    }
}

impl Sortable for AgentDispositionComment {
    type Key = DispositionView;

    open spec fn key(self) -> DispositionView {
        self@
    }

    fn is_at_most(&self, other: &Self) -> (r: bool) {
        self.id <= other.id
    }
}

/// A comment that has the mark, without the author as empty.
pub open spec fn disposition_of(c: CommentView) -> DispositionView {
    DispositionView {
        id: c.id,
        author_login: match c.author_login {
            Some(login) => login,
            None => Seq::empty(),
        },
        body: c.body,
    }
}

/// The comments that have the mark.
pub open spec fn marked(records: Seq<CommentView>) -> Seq<DispositionView>
    decreases records.len(),
{
    if records.len() == 0 {
        Seq::empty()
    } else {
        let rest = marked(records.drop_last());
        if has_text(records.last().body, AGENT_DISPOSITIONS_MARKER_PREFIX@) {
            rest.push(disposition_of(records.last()))
        } else {
            rest
        }
    }
}

/// The comments that record a disposition, oldest first.
pub fn agent_disposition_comments(records: &Vec<IssueCommentRecord>) -> (r: Vec<
    AgentDispositionComment,
>)
    ensures
        disposition_views(r@) == sorted(marked(comment_views(records@))),
{
    let ghost all = comment_views(records@);
    let mut found: Vec<AgentDispositionComment> = Vec::new();
    let mut i: usize = 0;
    proof {
        assert(disposition_views(found@) =~= marked(all.take(0)));
    }
    while i < records.len()
        invariant
            i <= records@.len(),
            all == comment_views(records@),
            disposition_views(found@) == marked(all.take(i as int)),
        decreases records@.len() - i,
    {
        proof {
            assert(all.take(i + 1).drop_last() =~= all.take(i as int));
            assert(all.take(i + 1).last() == records@[i as int]@);
        }
        let record = &records[i];
        if contains(record.body.as_str(), AGENT_DISPOSITIONS_MARKER_PREFIX) {
            let author_login = match &record.author_login {
                Some(login) => login.clone(),
                None => String::new(),
            };
            let comment = AgentDispositionComment {
                id: record.id,
                author_login,
                body: record.body.clone(),
            };
            let ghost before = disposition_views(found@);
            found.push(comment);
            proof {
                assert(disposition_views(found@) =~= before.push(comment@));
            }
        }
        i += 1;
    }
    proof {
        assert(all.take(all.len() as int) =~= all);
        assert(keys(found@) =~= disposition_views(found@));
    }
    let r = sort(found);
    proof {
        assert(keys(r@) =~= disposition_views(r@));
    }
    r
}

// ---------------------------------------------------------------------------
// Attestations
// ---------------------------------------------------------------------------

/// The context of the status that attests a comment.
pub open spec fn status_context(comment_id: u64) -> Seq<char> {
    AGENT_DISPOSITION_STATUS_PREFIX@ + decimal_of(comment_id as nat)
}

/// The context of the status that attests a comment.
pub fn agent_disposition_status_context(comment_id: u64) -> (r: String)
    ensures
        r@ == status_context(comment_id),
{
    let number = decimal(comment_id);
    concat2(AGENT_DISPOSITION_STATUS_PREFIX, number.as_str())
}

/// The digest of a comment.
pub open spec fn body_digest(body: Seq<char>) -> Seq<char> {
    AGENT_DISPOSITION_DIGEST_PREFIX@ + sha256_hex(body)
}

/// The digest of a comment.
pub fn agent_disposition_digest(body: &str) -> (r: String)
    ensures
        r@ == body_digest(body@),
{
    let digest = sha256(body);
    concat2(AGENT_DISPOSITION_DIGEST_PREFIX, digest.as_str())
}

/// The status attests a comment, given the digest of its body: it names the comment and
/// the digest, the author of the comment made it, and it says that all is well.
pub open spec fn attests(s: StatusView, c: DispositionView, digest: Seq<char>) -> bool {
    s.context == status_context(c.id) && s.description == digest && s.creator_login
        == c.author_login && s.state == "success"@
}

/// A status attests the comment.
pub open spec fn attested(c: DispositionView, digest: Seq<char>, statuses: Seq<StatusView>) -> bool {
    exists|i: int| 0 <= i < statuses.len() && attests(#[trigger] statuses[i], c, digest)
}

/// The numbers of the comments that a status attests.
pub open spec fn attested_ids(
    comments: Seq<DispositionView>,
    statuses: Seq<StatusView>,
) -> Seq<u64>
    decreases comments.len(),
{
    if comments.len() == 0 {
        Seq::empty()
    } else {
        let rest = attested_ids(comments.drop_last(), statuses);
        if attested(comments.last(), body_digest(comments.last().body), statuses) {
            rest.push(comments.last().id)
        } else {
            rest
        }
    }
}

/// Whether a status attests a comment, given the digest of its body.
pub fn is_attested(
    comment: &AgentDispositionComment,
    digest: &str,
    statuses: &Vec<CommitStatusRecord>,
) -> (r: bool)
    ensures
        r == attested(comment@, digest@, status_views(statuses@)),
{
    let ghost all = status_views(statuses@);
    let context = agent_disposition_status_context(comment.id);
    let mut i: usize = 0;
    while i < statuses.len()
        invariant
            i <= statuses@.len(),
            all == status_views(statuses@),
            context@ == status_context(comment.id),
            forall|k: int| 0 <= k < i ==> !attests(#[trigger] all[k], comment@, digest@),
        decreases statuses@.len() - i,
    {
        let status = &statuses[i];
        proof {
            assert(all[i as int] == status@);
        }
        if same_text(status.context.as_str(), context.as_str()) && same_text(
            status.description.as_str(),
            digest,
        ) && same_text(status.creator_login.as_str(), comment.author_login.as_str()) && same_text(
            status.state.as_str(),
            "success",
        ) {
            return true;
        }
        i += 1;
    }
    false
}

/// The numbers of the comments that a status attests.
pub fn attested_disposition_comment_ids(
    comments: &Vec<AgentDispositionComment>,
    statuses: &Vec<CommitStatusRecord>,
) -> (r: Vec<u64>)
    ensures
        r@ == attested_ids(disposition_views(comments@), status_views(statuses@)),
{
    let ghost all = disposition_views(comments@);
    let mut r: Vec<u64> = Vec::new();
    let mut i: usize = 0;
    proof {
        assert(r@ =~= attested_ids(all.take(0), status_views(statuses@)));
    }
    while i < comments.len()
        invariant
            i <= comments@.len(),
            all == disposition_views(comments@),
            r@ == attested_ids(all.take(i as int), status_views(statuses@)),
        decreases comments@.len() - i,
    {
        proof {
            assert(all.take(i + 1).drop_last() =~= all.take(i as int));
            assert(all.take(i + 1).last() == comments@[i as int]@);
        }
        let digest = agent_disposition_digest(comments[i].body.as_str());
        if is_attested(&comments[i], digest.as_str(), statuses) {
            r.push(comments[i].id);
        }
        i += 1;
    }
    proof {
        assert(all.take(all.len() as int) =~= all);
    }
    r
}

/// A comment counts only by a status that its author made for its very text.
pub proof fn law_attested_comments(
    comments: Seq<DispositionView>,
    statuses: Seq<StatusView>,
    id: u64,
)
    requires
        attested_ids(comments, statuses).contains(id),
    ensures
        exists|i: int, k: int|
            0 <= i < comments.len() && 0 <= k < statuses.len() && (#[trigger] comments[i]).id == id
                && attests(#[trigger] statuses[k], comments[i], body_digest(comments[i].body)),
    decreases comments.len(),
{
    if comments.len() > 0 {
        let rest = attested_ids(comments.drop_last(), statuses);
        let n = choose|n: int|
            0 <= n < attested_ids(comments, statuses).len() && attested_ids(
                comments,
                statuses,
            )[n] == id;
        if n < rest.len() {
            assert(rest[n] == id);
            law_attested_comments(comments.drop_last(), statuses, id);
            let (i, k) = choose|i: int, k: int|
                0 <= i < comments.drop_last().len() && 0 <= k < statuses.len() && (
                #[trigger] comments.drop_last()[i]).id == id && attests(
                    #[trigger] statuses[k],
                    comments.drop_last()[i],
                    body_digest(comments.drop_last()[i].body),
                );
            assert(comments[i].id == id && attests(
                statuses[k],
                comments[i],
                body_digest(comments[i].body),
            ));
        } else {
            let c = comments.last();
            let k = choose|k: int|
                0 <= k < statuses.len() && attests(#[trigger] statuses[k], c, body_digest(c.body));
            assert(comments[comments.len() - 1].id == id && attests(
                statuses[k],
                comments[comments.len() - 1],
                body_digest(comments[comments.len() - 1].body),
            ));
        }
    }
}

/// Where the statuses are listed that may attest comments; none where there are no
/// comments.
pub fn load_attested_disposition_comment_ids(
    repository: &str,
    reviewed_sha: &str,
    comments: &Vec<AgentDispositionComment>,
) -> (r: Option<String>)
    ensures
        opt_view(r) == if comments@.len() == 0 {
            None
        } else {
            Some("repos/"@ + repository@ + "/commits/"@ + reviewed_sha@
                + "/statuses?per_page=100"@)
        },
{
    if comments.len() == 0 {
        None
    } else {
        Some(fetch_commit_status_records(repository, reviewed_sha))
    }
}

/// The status that attests a comment, given the digest of its body.
pub open spec fn attestation_value(
    repository: Seq<char>,
    pr_number: u64,
    comment_id: u64,
    digest: Seq<char>,
) -> JsonView {
    JsonView::Object(
        seq![
            ("state"@, JsonView::Text("success"@)),
            ("context"@, JsonView::Text(status_context(comment_id))),
            ("description"@, JsonView::Text(digest)),
            (
                "target_url"@,
                JsonView::Text(
                    "https://github.com/"@ + repository + "/pull/"@ + decimal_of(
                        pr_number as nat,
                    ) + "#issuecomment-"@ + decimal_of(comment_id as nat),
                ),
            ),
        ],
    )
}

/// The status that attests a comment, given the digest of its body.
pub fn attestation_payload(
    repository: &str,
    pr_number: u64,
    comment_id: u64,
    digest: &str,
) -> (r: Json)
    ensures
        r@ == attestation_value(repository@, pr_number, comment_id, digest@),
{
    let context = agent_disposition_status_context(comment_id);
    let number = decimal(pr_number);
    let comment = decimal(comment_id);
    let url = concat3("https://github.com/", repository, "/pull/");
    let url = concat3(url.as_str(), number.as_str(), "#issuecomment-");
    let url = concat2(url.as_str(), comment.as_str());
    let mut fields: Vec<(String, Json)> = Vec::new();
    fields.push(field("state", json_text("success")));
    fields.push(field("context", json_text(context.as_str())));
    fields.push(field("description", json_text(digest)));
    fields.push(field("target_url", json_text(url.as_str())));
    proof {
        assert(field_views(fields@) =~= attestation_value(
            repository@,
            pr_number,
            comment_id,
            digest@,
        )->Object_0);
    }
    json_object(fields)
}

/// The status that attests a comment.
pub fn create_agent_disposition_attestation(
    repository: &str,
    pr_number: u64,
    comment_id: u64,
    body: &str,
) -> (r: Json)
    ensures
        r@ == attestation_value(repository@, pr_number, comment_id, body_digest(body@)),
{
    let digest = agent_disposition_digest(body);
    attestation_payload(repository, pr_number, comment_id, digest.as_str())
}

/// A status that was made as an attestation is one, if it is by the author: it is read
/// back as attesting the comment.
pub proof fn law_attestations_attest(
    repository: Seq<char>,
    pr_number: u64,
    comment: DispositionView,
    digest: Seq<char>,
)
    ensures
        attestation_value(repository, pr_number, comment.id, digest) matches JsonView::Object(
            fields,
        ) && attests(
            StatusView {
                context: fields[1].1->Text_0,
                description: fields[2].1->Text_0,
                creator_login: comment.author_login,
                state: fields[0].1->Text_0,
            },
            comment,
            digest,
        ) && fields[0].0 == "state"@ && fields[1].0 == "context"@ && fields[2].0
            == "description"@,
{
}

/// Whether the status that was created is by the author of the comment.
pub open spec fn created_status(reply: JsonView, actor: Seq<char>) -> Result<(), Seq<char>> {
    match text_at(reply, "creator.login"@) {
        None => Err("created commit status did not include creator login"@),
        Some(creator) => if creator == actor {
            Ok(())
        } else {
            Err("created commit status actor did not match the disposition author"@)
        },
    }
}

/// Nothing or what is wrong.
pub open spec fn unit_result(r: Result<(), String>) -> Result<(), Seq<char>> {
    match r {
        Ok(_) => Ok(()),
        Err(e) => Err(e@),
    }
}

/// Whether the status that was created is by the author of the comment.
pub fn check_created_status(reply: &Json, actor: &str) -> (r: Result<(), String>)
    ensures
        unit_result(r) == created_status(json_view(*reply), actor@),
{
    match reply.text_at("creator.login") {
        None => Err("created commit status did not include creator login".to_owned()),
        Some(creator) => {
            if same_text(creator, actor) {
                Ok(())
            } else {
                Err(
                    "created commit status actor did not match the disposition author".to_owned(),
                )
            }
        },
    }
}

/// Whether the status that was created is by the author of the comment, from the text of
/// the reply.
pub fn parse_created_status(raw: &str, actor: &str) -> (r: Result<(), String>)
    ensures
        unit_result(r) == match json_document(raw@) {
            Some(reply) => created_status(reply, actor@),
            None => Err("failed to parse created commit status JSON"@),
        },
{
    match parse_json(raw) {
        Some(reply) => check_created_status(&reply, actor),
        None => Err("failed to parse created commit status JSON".to_owned()),
    }
}

// ---------------------------------------------------------------------------
// Replays
// ---------------------------------------------------------------------------

/// What is to be done about a comment.
#[derive(Debug, PartialEq, Eq)]
pub enum ScreenedComment {
    /// No status attests it.
    Unauthorized,
    /// It records nothing.
    Absent,
    /// What it records cannot be read.
    Malformed { error: String },
    /// It records these bytes.
    Payload { bytes: Vec<u8> },
}

/// What is to be done about a comment.
pub enum ScreenedView {
    Unauthorized,
    Absent,
    Malformed { error: Seq<char> },
    Payload { bytes: Seq<u8> },
}

impl View for ScreenedComment {
    type V = ScreenedView;

    open spec fn view(&self) -> ScreenedView {
        match self {
            ScreenedComment::Unauthorized => ScreenedView::Unauthorized,
            ScreenedComment::Absent => ScreenedView::Absent,
            ScreenedComment::Malformed { error } => ScreenedView::Malformed { error: error@ },
            ScreenedComment::Payload { bytes } => ScreenedView::Payload { bytes: bytes@ },
        }
    }
}

/// What is to be done about a comment, given what it records.
pub open spec fn screened(
    id: u64,
    attested: Seq<u64>,
    recorded: Result<Option<Seq<u8>>, Seq<char>>,
) -> ScreenedView {
    if !attested.contains(id) {
        ScreenedView::Unauthorized
    } else {
        match recorded {
            Err(error) => ScreenedView::Malformed { error },
            Ok(None) => ScreenedView::Absent,
            Ok(Some(bytes)) => ScreenedView::Payload { bytes },
        }
    }
}

fn has_id(ids: &Vec<u64>, id: u64) -> (r: bool)
    ensures
        r == ids@.contains(id),
{
    let mut i: usize = 0;
    while i < ids.len()
        invariant
            i <= ids@.len(),
            forall|k: int| 0 <= k < i ==> ids@[k] != id,
        decreases ids@.len() - i,
    {
        if ids[i] == id {
            return true;
        }
        i += 1;
    }
    false
}

/// What is to be done about a comment, given what it records.
pub fn screen_recorded(
    id: u64,
    attested_comment_ids: &Vec<u64>,
    recorded: Result<Option<Vec<u8>>, String>,
) -> (r: ScreenedComment)
    ensures
        r@ == screened(id, attested_comment_ids@, bytes_result(recorded)),
{
    if !has_id(attested_comment_ids, id) {
        return ScreenedComment::Unauthorized;
    }
    match recorded {
        Err(error) => ScreenedComment::Malformed { error },
        Ok(None) => ScreenedComment::Absent,
        Ok(Some(bytes)) => ScreenedComment::Payload { bytes },
    }
}

/// What is to be done about a comment.
pub fn screen_comment(comment: &AgentDispositionComment, attested_comment_ids: &Vec<u64>) -> (r:
    ScreenedComment)
    ensures
        r@ == screened(comment.id, attested_comment_ids@, extracted(comment.body@)),
{
    screen_recorded(
        comment.id,
        attested_comment_ids,
        extract_agent_disposition_state(comment.body.as_str()),
    )
}

/// What a disposition that was read says of itself.
#[derive(Debug, PartialEq, Eq)]
pub struct DispositionUpdate {
    pub scope: ReviewScope,
    pub reviewed_sha: String,
    pub actor: String,
}

/// Whether a disposition that was read may be applied.
#[derive(Debug, Clone, Copy, PartialEq, Eq, Structural)]
pub enum UpdateJudgement {
    /// It is of another pull request or of another head.
    Stale,
    /// Another than the author of the comment is named.
    ActorMismatch,
    /// It may be applied.
    Apply,
}

/// Whether a disposition that was read may be applied.
pub open spec fn judged(
    scope: ScopeView,
    sha: Seq<char>,
    actor: Seq<char>,
    current_scope: ScopeView,
    current_sha: Seq<char>,
    author: Seq<char>,
) -> UpdateJudgement {
    if scope != current_scope || sha != current_sha {
        UpdateJudgement::Stale
    } else if actor != author {
        UpdateJudgement::ActorMismatch
    } else {
        UpdateJudgement::Apply
    }
}

/// Whether two scopes are the same.
pub fn same_scope(a: &ReviewScope, b: &ReviewScope) -> (r: bool)
    ensures
        r == (a@ == b@),
{
    match (a, b) {
        (ReviewScope::Local, ReviewScope::Local) => true,
        (
            ReviewScope::PullRequest { repository: r1, pull_request_number: n1 },
            ReviewScope::PullRequest { repository: r2, pull_request_number: n2 },
        ) => *n1 == *n2 && same_text(r1.as_str(), r2.as_str()),
        _ => false,
    }
}

/// Whether a disposition that was read may be applied.
pub fn judge_update(
    update: &DispositionUpdate,
    scope: &ReviewScope,
    last_reviewed_sha: &str,
    author_login: &str,
) -> (r: UpdateJudgement)
    ensures
        r == judged(
            update.scope@,
            update.reviewed_sha@,
            update.actor@,
            scope@,
            last_reviewed_sha@,
            author_login@,
        ),
{
    if !same_scope(&update.scope, scope) || !same_text(
        update.reviewed_sha.as_str(),
        last_reviewed_sha,
    ) {
        UpdateJudgement::Stale
    } else if !same_text(update.actor.as_str(), author_login) {
        UpdateJudgement::ActorMismatch
    } else {
        UpdateJudgement::Apply
    }
}

/// What became of a comment.
#[derive(Debug, Clone, Copy, PartialEq, Eq, Structural)]
pub enum CommentOutcome {
    Absent,
    Unauthorized,
    Malformed,
    Stale,
    ActorMismatch,
    Invalid,
    Applied,
    Duplicate,
}

/// How many comments came to what.
#[derive(Debug, Clone, Copy, PartialEq, Eq, Structural)]
pub struct AgentDispositionReplay {
    pub found: usize,
    pub unauthorized: usize,
    pub malformed: usize,
    pub stale: usize,
    pub actor_mismatch: usize,
    pub invalid: usize,
    pub applied: usize,
    pub duplicate: usize,
}

/// How many of the outcomes are this one.
pub open spec fn outcome_count(outcomes: Seq<CommentOutcome>, outcome: CommentOutcome) -> nat
    decreases outcomes.len(),
{
    if outcomes.len() == 0 {
        0
    } else {
        outcome_count(outcomes.drop_last(), outcome) + if outcomes.last() == outcome {
            1nat
        } else {
            0nat
        }
    }
}

fn count_outcome(outcomes: &Vec<CommentOutcome>, outcome: CommentOutcome) -> (r: usize)
    ensures
        r == outcome_count(outcomes@, outcome),
{
    let mut n: usize = 0;
    let mut i: usize = 0;
    while i < outcomes.len()
        invariant
            i <= outcomes@.len(),
            n <= i,
            n == outcome_count(outcomes@.take(i as int), outcome),
        decreases outcomes@.len() - i,
    {
        proof {
            assert(outcomes@.take(i + 1).drop_last() =~= outcomes@.take(i as int));
            assert(outcomes@.take(i + 1).last() == outcomes@[i as int]);
        }
        if outcomes[i] == outcome {
            n += 1;
        }
        i += 1;
    }
    proof {
        assert(outcomes@.take(outcomes@.len() as int) =~= outcomes@);
    }
    n
}

/// How many comments came to what.
pub fn apply_agent_disposition_comments(outcomes: &Vec<CommentOutcome>) -> (r:
    AgentDispositionReplay)
    ensures
        r.found == outcomes@.len(),
        r.unauthorized == outcome_count(outcomes@, CommentOutcome::Unauthorized),
        r.malformed == outcome_count(outcomes@, CommentOutcome::Malformed),
        r.stale == outcome_count(outcomes@, CommentOutcome::Stale),
        r.actor_mismatch == outcome_count(outcomes@, CommentOutcome::ActorMismatch),
        r.invalid == outcome_count(outcomes@, CommentOutcome::Invalid),
        r.applied == outcome_count(outcomes@, CommentOutcome::Applied),
        r.duplicate == outcome_count(outcomes@, CommentOutcome::Duplicate),
{
    AgentDispositionReplay {
        found: outcomes.len(),
        unauthorized: count_outcome(outcomes, CommentOutcome::Unauthorized),
        malformed: count_outcome(outcomes, CommentOutcome::Malformed),
        stale: count_outcome(outcomes, CommentOutcome::Stale),
        actor_mismatch: count_outcome(outcomes, CommentOutcome::ActorMismatch),
        invalid: count_outcome(outcomes, CommentOutcome::Invalid),
        applied: count_outcome(outcomes, CommentOutcome::Applied),
        duplicate: count_outcome(outcomes, CommentOutcome::Duplicate),
    }
}

/// Every comment comes to one thing.
pub proof fn law_every_comment_is_counted(outcomes: Seq<CommentOutcome>)
    ensures
        outcomes.len() == outcome_count(outcomes, CommentOutcome::Absent) + outcome_count(
            outcomes,
            CommentOutcome::Unauthorized,
        ) + outcome_count(outcomes, CommentOutcome::Malformed) + outcome_count(
            outcomes,
            CommentOutcome::Stale,
        ) + outcome_count(outcomes, CommentOutcome::ActorMismatch) + outcome_count(
            outcomes,
            CommentOutcome::Invalid,
        ) + outcome_count(outcomes, CommentOutcome::Applied) + outcome_count(
            outcomes,
            CommentOutcome::Duplicate,
        ),
    decreases outcomes.len(),
{
    if outcomes.len() > 0 {
        law_every_comment_is_counted(outcomes.drop_last());
    }
}

/// What is said of a replay, if there was anything to replay.
pub open spec fn replay_report(stage: Seq<char>, r: AgentDispositionReplay) -> Option<Seq<char>> {
    if r.found == 0 {
        None
    } else {
        Some(
            "ReviewGate agent dispositions ("@ + stage + "): "@ + decimal_of(r.found as nat)
                + " found; "@ + decimal_of(r.applied as nat) + " applied; "@ + decimal_of(
                r.duplicate as nat,
            ) + " duplicates; "@ + decimal_of(r.unauthorized as nat) + " unauthorized; "@
                + decimal_of(r.stale as nat) + " stale; "@ + decimal_of(r.actor_mismatch as nat)
                + " actor mismatch; "@ + decimal_of(r.malformed as nat) + " malformed; "@
                + decimal_of(r.invalid as nat) + " invalid."@,
        )
    }
}

fn add_count(text: &mut String, n: usize, label: &str)
    ensures
        final(text)@ == old(text)@ + decimal_of(n as nat) + label@,
{
    let number = decimal(n as u64);
    text.append(number.as_str());
    text.append(label);
}

/// What is said of a replay, if there was anything to replay.
pub fn report_agent_disposition_replay(stage: &str, replay: AgentDispositionReplay) -> (r: Option<
    String,
>)
    ensures
        opt_view(r) == replay_report(stage@, replay),
{
    if replay.found == 0 {
        return None;
    }
    let mut text = concat3("ReviewGate agent dispositions (", stage, "): ");
    add_count(&mut text, replay.found, " found; ");
    add_count(&mut text, replay.applied, " applied; ");
    add_count(&mut text, replay.duplicate, " duplicates; ");
    add_count(&mut text, replay.unauthorized, " unauthorized; ");
    add_count(&mut text, replay.stale, " stale; ");
    add_count(&mut text, replay.actor_mismatch, " actor mismatch; ");
    add_count(&mut text, replay.malformed, " malformed; ");
    add_count(&mut text, replay.invalid, " invalid.");
    Some(text)
}

// ---------------------------------------------------------------------------
// What holds of it
// ---------------------------------------------------------------------------

/// A comment that a status attests counts, whatever other comments there are.
pub proof fn law_every_attested_comment_counts(
    comments: Seq<DispositionView>,
    statuses: Seq<StatusView>,
    i: int,
    k: int,
)
    requires
        0 <= i < comments.len(),
        0 <= k < statuses.len(),
        statuses[k].context == AGENT_DISPOSITION_STATUS_PREFIX@ + decimal_of(
            comments[i].id as nat,
        ),
        statuses[k].description == AGENT_DISPOSITION_DIGEST_PREFIX@ + sha256_hex(comments[i].body),
        statuses[k].creator_login == comments[i].author_login,
        statuses[k].state == "success"@,
    ensures
        attested_ids(comments, statuses).contains(comments[i].id),
    decreases comments.len(),
{
    let last = comments.last();
    let rest = attested_ids(comments.drop_last(), statuses);
    let all = attested_ids(comments, statuses);
    assert(attests(statuses[k], comments[i], body_digest(comments[i].body)));
    if i == comments.len() - 1 {
        assert(attested(last, body_digest(last.body), statuses));
        assert(all[all.len() - 1] == last.id);
    } else {
        assert(comments.drop_last()[i] == comments[i]);
        law_every_attested_comment_counts(comments.drop_last(), statuses, i, k);
        let n = choose|n: int| 0 <= n < rest.len() && rest[n] == comments[i].id;
        assert(all[n] == comments[i].id);
    }
}

/// A comment counts only by a status that succeeded, was made by the author of the
/// comment, and names both the comment and the digest of its text.
pub proof fn law_only_attested_comments_count(
    comments: Seq<DispositionView>,
    statuses: Seq<StatusView>,
    id: u64,
)
    requires
        attested_ids(comments, statuses).contains(id),
    ensures
        exists|i: int, k: int|
            0 <= i < comments.len() && 0 <= k < statuses.len() && (#[trigger] comments[i]).id == id
                && (#[trigger] statuses[k]).state == "success"@ && statuses[k].creator_login
                == comments[i].author_login && statuses[k].context
                == AGENT_DISPOSITION_STATUS_PREFIX@ + decimal_of(id as nat)
                && statuses[k].description == AGENT_DISPOSITION_DIGEST_PREFIX@ + sha256_hex(
                comments[i].body,
            ),
{
    law_attested_comments(comments, statuses, id);
    let (i, k) = choose|i: int, k: int|
        0 <= i < comments.len() && 0 <= k < statuses.len() && (#[trigger] comments[i]).id == id
            && attests(#[trigger] statuses[k], comments[i], body_digest(comments[i].body));
    assert(comments[i].id == id && statuses[k].state == "success"@);
}

/// Comments count on their own, in their order: of two lists together those count that
/// count of each, and of one comment at most that one.
pub proof fn law_comments_count_on_their_own(
    a: Seq<DispositionView>,
    b: Seq<DispositionView>,
    statuses: Seq<StatusView>,
)
    ensures
        attested_ids(a + b, statuses) == attested_ids(a, statuses) + attested_ids(b, statuses),
        b.len() == 1 ==> attested_ids(b, statuses) == Seq::<u64>::empty() || attested_ids(
            b,
            statuses,
        ) == seq![b[0].id],
        b.len() == 0 ==> attested_ids(b, statuses).len() == 0,
    decreases b.len(),
{
    if b.len() == 0 {
        assert(a + b =~= a);
        assert(attested_ids(a, statuses) + attested_ids(b, statuses) =~= attested_ids(a, statuses));
    } else {
        assert((a + b).drop_last() =~= a + b.drop_last());
        assert((a + b).last() == b.last());
        law_comments_count_on_their_own(a, b.drop_last(), statuses);
        assert(attested_ids(a + b, statuses) =~= attested_ids(a, statuses) + attested_ids(
            b,
            statuses,
        ));
        if b.len() == 1 {
            assert(attested_ids(b.drop_last(), statuses).len() == 0);
            assert(attested_ids(b, statuses) =~= Seq::<u64>::empty() || attested_ids(b, statuses)
                =~= seq![b[0].id]);
        }
    }
}

/// Every comment that has the mark is found, with its number, its author and its text, and
/// no other is.
pub proof fn law_marked_comments_are_found(records: Seq<CommentView>)
    ensures
        forall|i: int|
            0 <= i < records.len() && has_text(
                (#[trigger] records[i]).body,
                AGENT_DISPOSITIONS_MARKER_PREFIX@,
            ) ==> marked(records).contains(
                DispositionView {
                    id: records[i].id,
                    author_login: records[i].author_login.unwrap_or(Seq::empty()),
                    body: records[i].body,
                },
            ),
        forall|d: DispositionView| #[trigger]
            marked(records).contains(d) ==> has_text(d.body, AGENT_DISPOSITIONS_MARKER_PREFIX@)
                && exists|i: int|
                0 <= i < records.len() && (#[trigger] records[i]).id == d.id && records[i].body
                    == d.body && records[i].author_login.unwrap_or(Seq::empty())
                    == d.author_login,
    decreases records.len(),
{
    if records.len() > 0 {
        let rest = records.drop_last();
        let last = records.last();
        law_marked_comments_are_found(rest);
        let found = marked(rest);
        let all = marked(records);
        assert forall|i: int|
            0 <= i < records.len() && has_text(
                (#[trigger] records[i]).body,
                AGENT_DISPOSITIONS_MARKER_PREFIX@,
            ) implies all.contains(
            DispositionView {
                id: records[i].id,
                author_login: records[i].author_login.unwrap_or(Seq::empty()),
                body: records[i].body,
            },
        ) by {
            let d = DispositionView {
                id: records[i].id,
                author_login: records[i].author_login.unwrap_or(Seq::empty()),
                body: records[i].body,
            };
            if i < rest.len() {
                assert(rest[i] == records[i]);
                assert(found.contains(d));
                let n = choose|n: int| 0 <= n < found.len() && found[n] == d;
                assert(all[n] == d);
            } else {
                assert(all[all.len() - 1] == d);
            }
        }
        assert forall|d: DispositionView| #[trigger] all.contains(d) implies has_text(
            d.body,
            AGENT_DISPOSITIONS_MARKER_PREFIX@,
        ) && exists|i: int|
            0 <= i < records.len() && (#[trigger] records[i]).id == d.id && records[i].body
                == d.body && records[i].author_login.unwrap_or(Seq::empty())
                == d.author_login by {
            let n = choose|n: int| 0 <= n < all.len() && all[n] == d;
            if n < found.len() {
                assert(found[n] == d);
                assert(found.contains(d));
                let i = choose|i: int|
                    0 <= i < rest.len() && (#[trigger] rest[i]).id == d.id && rest[i].body
                        == d.body && rest[i].author_login.unwrap_or(Seq::empty())
                        == d.author_login;
                assert(records[i] == rest[i]);
            } else {
                assert(records[records.len() - 1] == last);
            }
        }
    }
}

/// The comments that record a disposition come oldest first, and none is lost.
pub proof fn law_dispositions_come_oldest_first(records: Seq<CommentView>)
    ensures
        forall|i: int, j: int|
            0 <= i < j < sorted(marked(records)).len() ==> (#[trigger] sorted(
                marked(records),
            )[i]).id <= (#[trigger] sorted(marked(records))[j]).id,
        sorted(marked(records)).to_multiset() == marked(records).to_multiset(),
{
    crate::order::law_sorted_is_in_order(marked(records));
    crate::order::law_sorted_keeps_items(marked(records));
    assert forall|i: int, j: int| 0 <= i < j < sorted(marked(records)).len() implies (
    #[trigger] sorted(marked(records))[i]).id <= (#[trigger] sorted(marked(records))[j]).id by {
        assert(sorted(marked(records))[i].at_most(sorted(marked(records))[j]));
    }
}

/// A comment without the mark records nothing, one whose mark is not closed is malformed,
/// and of any other the text between the mark and where it is first closed is read.
pub proof fn law_marks_are_read(body: Seq<char>)
    ensures
        payload_in(body) == Ok::<Option<Seq<char>>, Seq<char>>(None) <==> !has_text(
            body,
            AGENT_DISPOSITIONS_MARKER_PREFIX@,
        ),
        payload_in(body) matches Ok(Some(payload)) ==> has_text(
            body,
            AGENT_DISPOSITIONS_MARKER_PREFIX@ + payload + AGENT_DISPOSITIONS_MARKER_SUFFIX@,
        ) && !has_text(payload, AGENT_DISPOSITIONS_MARKER_SUFFIX@),
        payload_in(body) matches Ok(Some(payload)) ==> (extracted(body) is Ok
            <==> base64_bytes(payload) is Some),
        payload_in(body) is Err ==> extracted(body) is Err,
{
    let prefix = AGENT_DISPOSITIONS_MARKER_PREFIX@;
    let suffix = AGENT_DISPOSITIONS_MARKER_SUFFIX@;
    if has_text(body, prefix) {
        crate::text::law_found_text_is_first(body, prefix);
        let start = find_text(body, prefix)->0;
        assert(first_at(body, prefix, start));
        let rest = body.skip(start + prefix.len());
        if has_text(rest, suffix) {
            crate::text::law_found_text_is_first(rest, suffix);
            let end = find_text(rest, suffix)->0;
            assert(first_at(rest, suffix, end));
            let payload = rest.take(end);
            let whole = prefix + payload + suffix;
            assert(body.subrange(start, start + whole.len()) =~= whole) by {
                assert(body.subrange(start, start + prefix.len()) =~= prefix);
                assert(rest.subrange(end, end + suffix.len()) =~= suffix);
                assert forall|j: int| 0 <= j < whole.len() implies #[trigger] body.subrange(
                    start,
                    start + whole.len(),
                )[j] == whole[j] by {
                    if j < prefix.len() {
                        assert(body.subrange(start, start + prefix.len())[j] == prefix[j]);
                    } else if j < prefix.len() + end {
                        assert(rest[j - prefix.len()] == body[start + j]);
                    } else {
                        assert(rest.subrange(end, end + suffix.len())[j - prefix.len() - end]
                            == suffix[j - prefix.len() - end]);
                    }
                }
            }
            assert(occurs_at(body, whole, start));
            assert forall|j: int| !occurs_at(payload, suffix, j) by {
                if occurs_at(payload, suffix, j) {
                    assert(rest.subrange(j, j + suffix.len()) =~= payload.subrange(
                        j,
                        j + suffix.len(),
                    ));
                    assert(occurs_at(rest, suffix, j));
                    reveal_strlit(" -->");
                    assert(j < end);
                }
            }
        }
    }
}

/// What is recorded in a comment is used exactly if a status attests the comment; what is
/// wrong with it is told then, and only then.
pub proof fn law_unattested_comments_are_not_read(
    id: u64,
    ids: Seq<u64>,
    recorded: Result<Option<Seq<u8>>, Seq<char>>,
)
    ensures
        screened(id, ids, recorded) is Unauthorized <==> !ids.contains(id),
        screened(id, ids, recorded) matches ScreenedView::Payload { bytes } ==> recorded == Ok::<
            Option<Seq<u8>>,
            Seq<char>,
        >(Some(bytes)),
        recorded matches Ok(Some(bytes)) ==> ids.contains(id) ==> screened(id, ids, recorded) == (
        ScreenedView::Payload { bytes }),
        recorded matches Err(error) ==> ids.contains(id) ==> screened(id, ids, recorded) == (
        ScreenedView::Malformed { error }),
        screened(id, ids, recorded) is Absent ==> recorded matches Ok(None),
{
}

/// A disposition is applied exactly if it is of this pull request and of this head, and
/// names the author of the comment; one of another pull request or head is stale, whoever
/// it names.
pub proof fn law_dispositions_of_the_head_are_applied(
    scope: ScopeView,
    sha: Seq<char>,
    actor: Seq<char>,
    current_scope: ScopeView,
    current_sha: Seq<char>,
    author: Seq<char>,
)
    ensures
        judged(scope, sha, actor, scope, sha, actor) == UpdateJudgement::Apply,
        judged(scope, sha, actor, current_scope, current_sha, author) == UpdateJudgement::Apply
            ==> scope == current_scope && sha == current_sha && actor == author,
        scope != current_scope ==> judged(
            scope,
            sha,
            actor,
            current_scope,
            current_sha,
            author,
        ) == UpdateJudgement::Stale,
        sha != current_sha ==> judged(scope, sha, actor, current_scope, current_sha, author)
            == UpdateJudgement::Stale,
        actor != author ==> judged(scope, sha, actor, scope, sha, author)
            == UpdateJudgement::ActorMismatch,
{
}

/// How many comments came to an outcome: each that did counts once, and no other does.
pub proof fn law_outcomes_are_counted_one_by_one(
    outcomes: Seq<CommentOutcome>,
    next: CommentOutcome,
    outcome: CommentOutcome,
)
    ensures
        outcome_count(Seq::empty(), outcome) == 0,
        next == outcome ==> outcome_count(outcomes.push(next), outcome) == outcome_count(
            outcomes,
            outcome,
        ) + 1,
        next != outcome ==> outcome_count(outcomes.push(next), outcome) == outcome_count(
            outcomes,
            outcome,
        ),
{
    assert(outcomes.push(next).drop_last() =~= outcomes);
    assert(outcomes.push(next).last() == next);
}

/// A status that was created is accepted exactly if it names the author of the comment.
pub proof fn law_created_statuses_are_of_the_author(reply: JsonView, actor: Seq<char>)
    ensures
        created_status(reply, actor) is Ok <==> text_at(reply, "creator.login"@) == Some(actor),
{
}

/// A replay is told of exactly if comments were found: first how many were found and how
/// many of them were applied, last how many were invalid.
pub proof fn law_replays_are_told(stage: Seq<char>, r: AgentDispositionReplay)
    ensures
        replay_report(stage, r) is Some <==> r.found > 0,
        replay_report(stage, r) matches Some(text) ==> exists|b: Seq<char>|
            text == #[trigger] ("ReviewGate agent dispositions ("@ + stage + "): "@ + decimal_of(
                r.found as nat,
            ) + " found; "@ + decimal_of(r.applied as nat) + " applied; "@ + b),
        replay_report(stage, r) matches Some(text) ==> exists|a: Seq<char>|
            text == #[trigger] (a + decimal_of(r.malformed as nat) + " malformed; "@ + decimal_of(
                r.invalid as nat,
            ) + " invalid."@),
{
    if let Some(text) = replay_report(stage, r) {
        let a = "ReviewGate agent dispositions ("@ + stage + "): "@ + decimal_of(r.found as nat)
            + " found; "@ + decimal_of(r.applied as nat) + " applied; "@;
        let m = decimal_of(r.duplicate as nat) + " duplicates; "@ + decimal_of(
            r.unauthorized as nat,
        ) + " unauthorized; "@ + decimal_of(r.stale as nat) + " stale; "@ + decimal_of(
            r.actor_mismatch as nat,
        ) + " actor mismatch; "@;
        let b = decimal_of(r.malformed as nat) + " malformed; "@ + decimal_of(r.invalid as nat)
            + " invalid."@;
        assert(text =~= (a + (m + b)));
        assert(text =~= ((a + m) + decimal_of(r.malformed as nat) + " malformed; "@ + decimal_of(
            r.invalid as nat,
        ) + " invalid."@));
    }
}

} // verus!
