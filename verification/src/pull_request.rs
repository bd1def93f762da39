//! What an event and its pull request say of a review.
use vstd::prelude::*;

use crate::bytes::{byte_len, counted_bytes, fitting, fitting_chars, law_fitting, utf8_len};
use crate::json::{json_view, opt_json_view, text_at, unsigned_at, Json, JsonView};
use crate::split::{blank, is_blank, lines, lines_of, trim, trimmed};
use crate::text::{
    chars_of, concat3, hex_digit, is_hex_digit, opt_view, same_text, starts_with, text_of, views,
};

verus! {

/// The bytes of a title.
pub const MAX_PR_TITLE_BYTES: usize = 1000;

/// The bytes of a description.
pub const MAX_PR_DESCRIPTION_BYTES: usize = 20000;

/// The characters of a title.
pub const MAX_PR_TITLE_CHARS: usize = 500;

/// The characters of a description.
pub const MAX_PR_DESCRIPTION_CHARS: usize = 5000;

// ---------------------------------------------------------------------------
// Commits and files
// ---------------------------------------------------------------------------

/// The name of a commit: forty or sixty-four hexadecimal digits.
pub open spec fn git_sha(value: Seq<char>) -> bool {
    (value.len() == 40 || value.len() == 64) && forall|i: int|
        0 <= i < value.len() ==> hex_digit(#[trigger] value[i])
}

/// Whether a text is the name of a commit.
pub fn valid_git_sha(value: &str) -> (r: bool)
    ensures
        r == git_sha(value@),
{
    let v = chars_of(value);
    if v.len() != 40 && v.len() != 64 {
        return false;
    }
    let mut i: usize = 0;
    while i < v.len()
        invariant
            i <= v@.len(),
            v@ == value@,
            forall|k: int| 0 <= k < i ==> hex_digit(#[trigger] v@[k]),
        decreases v@.len() - i,
    {
        if !is_hex_digit(v[i]) {
            proof {
                assert(!hex_digit(value@[i as int]));
            }
            return false;
        }
        i += 1;
    }
    true
}

/// The lines that are not blank, without the space around them.
pub open spec fn named_files(lines: Seq<Seq<char>>) -> Seq<Seq<char>>
    decreases lines.len(),
{
    if lines.len() == 0 {
        Seq::empty()
    } else {
        let rest = named_files(lines.drop_last());
        if blank(lines.last()) {
            rest
        } else {
            rest.push(trimmed(lines.last()))
        }
    }
}

/// The files that a list names, a line each.
pub fn parse_changed_files(raw: &str) -> (r: Vec<String>)
    ensures
        views(r@) == named_files(lines_of(raw@)),
{
    let all = lines(raw);
    let ghost seen = views(all@);
    let mut r: Vec<String> = Vec::new();
    let mut i: usize = 0;
    proof {
        assert(views(r@) =~= named_files(seen.take(0)));
    }
    while i < all.len()
        invariant
            i <= all@.len(),
            seen == views(all@),
            views(r@) == named_files(seen.take(i as int)),
        decreases all@.len() - i,
    {
        proof {
            assert(seen.take(i + 1).drop_last() =~= seen.take(i as int));
            assert(seen.take(i + 1).last() == all@[i as int]@);
        }
        if !is_blank(all[i].as_str()) {
            let name = trim(all[i].as_str());
            let ghost before = views(r@);
            r.push(name);
            proof {
                assert(views(r@) =~= before.push(name@));
            }
        }
        i += 1;
    }
    proof {
        assert(seen.take(seen.len() as int) =~= seen);
    }
    r
}

// ---------------------------------------------------------------------------
// What changed since the last review
// ---------------------------------------------------------------------------

/// A file that says what others rely on.
pub open spec fn contract_file(path: Seq<char>) -> bool {
    path == "AGENTS.md"@ || path == "README.md"@ || path == ".reviewgate.yml"@ || path
        == "action.yml"@ || ".github/workflows/"@.is_prefix_of(path) || "docs/"@.is_prefix_of(path)
}

/// One of the files says what others rely on.
pub open spec fn contract_changed(changed_files: Seq<Seq<char>>) -> bool {
    exists|i: int| 0 <= i < changed_files.len() && contract_file(#[trigger] changed_files[i])
}

/// Whether one of the files says what others rely on.
pub fn external_contract_changed(changed_files: &Vec<String>) -> (r: bool)
    ensures
        r == contract_changed(views(changed_files@)),
{
    let ghost all = views(changed_files@);
    let mut i: usize = 0;
    while i < changed_files.len()
        invariant
            i <= changed_files@.len(),
            all == views(changed_files@),
            forall|k: int| 0 <= k < i ==> !contract_file(#[trigger] all[k]),
        decreases changed_files@.len() - i,
    {
        let path = changed_files[i].as_str();
        proof {
            assert(all[i as int] == path@);
        }
        if same_text(path, "AGENTS.md") || same_text(path, "README.md") || same_text(
            path,
            ".reviewgate.yml",
        ) || same_text(path, "action.yml") || starts_with(path, ".github/workflows/")
            || starts_with(path, "docs/") {
            return true;
        }
        i += 1;
    }
    false
}

/// What is to be compared with the last review.
#[derive(Debug, PartialEq, Eq)]
pub enum DeltaPlan {
    /// The head is the one that was reviewed.
    Unchanged,
    /// The commits of this range.
    Compare { previous_sha: String, range: String },
}

/// What is to be compared with the last review.
pub enum DeltaView {
    Unchanged,
    Compare { previous_sha: Seq<char>, range: Seq<char> },
}

impl View for DeltaPlan {
    type V = DeltaView;

    open spec fn view(&self) -> DeltaView {
        match self {
            DeltaPlan::Unchanged => DeltaView::Unchanged,
            DeltaPlan::Compare { previous_sha, range } => DeltaView::Compare {
                previous_sha: previous_sha@,
                range: range@,
            },
        }
    }
}

/// What is to be compared with the last review. A review that was valid goes before the
/// last one.
pub open spec fn delta_plan(
    last_valid: Option<Seq<char>>,
    last: Seq<char>,
    current: Seq<char>,
) -> Result<DeltaView, Seq<char>> {
    let previous = match last_valid {
        Some(sha) => sha,
        None => last,
    };
    if !git_sha(previous) || !git_sha(current) {
        Err("reviewed SHAs must be 40 or 64 hexadecimal characters"@)
    } else if previous == current {
        Ok(DeltaView::Unchanged)
    } else {
        Ok(DeltaView::Compare { previous_sha: previous, range: previous + ".."@ + current })
    }
}

/// The view of an optional slice of text.
pub open spec fn opt_slice(value: Option<&str>) -> Option<Seq<char>> {
    match value {
        Some(v) => Some(v@),
        None => None,
    }
}

/// What is to be compared with the last review.
pub fn collect_convergence_delta(
    last_valid_reviewed_sha: Option<&str>,
    last_reviewed_sha: &str,
    current_reviewed_sha: &str,
) -> (r: Result<DeltaPlan, String>)
    ensures
        crate::reading::result_view(r) == delta_plan(
            opt_slice(last_valid_reviewed_sha),
            last_reviewed_sha@,
            current_reviewed_sha@,
        ),
{
    let previous = match last_valid_reviewed_sha {
        Some(sha) => sha,
        None => last_reviewed_sha,
    };
    if !valid_git_sha(previous) || !valid_git_sha(current_reviewed_sha) {
        return Err("reviewed SHAs must be 40 or 64 hexadecimal characters".to_owned());
    }
    if same_text(previous, current_reviewed_sha) {
        return Ok(DeltaPlan::Unchanged);
    }
    Ok(
        DeltaPlan::Compare {
            previous_sha: previous.to_owned(),
            range: concat3(previous, "..", current_reviewed_sha),
        },
    )
}

// ---------------------------------------------------------------------------
// Events
// ---------------------------------------------------------------------------

/// The head of the pull request that an event is of, unless it is blank.
pub open spec fn event_head(event: JsonView) -> Option<Seq<char>> {
    match text_at(event, "pull_request.head.sha"@) {
        Some(sha) => if blank(sha) {
            None
        } else {
            Some(sha)
        },
        None => None,
    }
}

/// The head of the pull request that an event is of, unless it is blank.
pub fn pull_request_head_sha(event: &Json) -> (r: Option<&str>)
    ensures
        opt_slice(r) == event_head(json_view(*event)),
{
    match event.text_at("pull_request.head.sha") {
        Some(sha) => {
            if is_blank(sha) {
                None
            } else {
                Some(sha)
            }
        },
        None => None,
    }
}

/// The number of the pull request that an event is of.
pub fn pull_request_number(event: &Json) -> (r: Option<u64>)
    ensures
        r == unsigned_at(json_view(*event), "pull_request.number"@),
{
    event.u64_at("pull_request.number")
}

/// The commit that is reviewed: the head of the pull request, or what is checked out.
pub open spec fn reviewed_sha(checkout: Seq<char>, event: Option<JsonView>) -> Seq<char> {
    match event {
        Some(e) => match event_head(e) {
            Some(sha) => sha,
            None => checkout,
        },
        None => checkout,
    }
}

/// The commit that is reviewed: the head of the pull request, or what is checked out.
pub fn select_reviewed_sha(checkout_sha: &str, github_event: Option<&Json>) -> (r: String)
    ensures
        r@ == reviewed_sha(checkout_sha@, opt_json_view(github_event)),
{
    match github_event {
        Some(event) => match pull_request_head_sha(event) {
            Some(sha) => sha.to_owned(),
            None => checkout_sha.to_owned(),
        },
        None => checkout_sha.to_owned(),
    }
}

/// What is reviewed.
#[derive(Debug, PartialEq, Eq)]
pub enum ReviewScope {
    Local,
    PullRequest { repository: String, pull_request_number: u64 },
}

/// What is reviewed.
pub enum ScopeView {
    Local,
    PullRequest { repository: Seq<char>, pull_request_number: u64 },
}

impl View for ReviewScope {
    type V = ScopeView;

    open spec fn view(&self) -> ScopeView {
        match self {
            ReviewScope::Local => ScopeView::Local,
            ReviewScope::PullRequest { repository, pull_request_number } => {
                ScopeView::PullRequest {
                    repository: repository@,
                    pull_request_number: *pull_request_number,
                }
            },
        }
    }
}

/// What is reviewed, given the repository where it is known.
pub open spec fn scope_of(event: Option<JsonView>, repository: Option<Seq<char>>) -> ScopeView {
    match (event, repository) {
        (Some(e), Some(repository)) => match unsigned_at(e, "pull_request.number"@) {
            Some(number) => ScopeView::PullRequest {
                repository,
                pull_request_number: number,
            },
            None => ScopeView::Local,
        },
        _ => ScopeView::Local,
    }
}

/// What is reviewed, given the repository where it is known.
pub fn review_scope(github_event: Option<&Json>, repository: Option<&str>) -> (r: ReviewScope)
    ensures
        r@ == scope_of(opt_json_view(github_event), opt_slice(repository)),
{
    match (github_event, repository) {
        (Some(event), Some(repository)) => match pull_request_number(event) {
            Some(number) => ReviewScope::PullRequest {
                repository: repository.to_owned(),
                pull_request_number: number,
            },
            None => ReviewScope::Local,
        },
        _ => ReviewScope::Local,
    }
}

// ---------------------------------------------------------------------------
// Titles and descriptions
// ---------------------------------------------------------------------------

/// A control character.
pub open spec fn control(c: char) -> bool {
    (c as u32) < 0x20 || 0x7f <= (c as u32) <= 0x9f
}

/// A character that changes how others are shown.
pub open spec fn format_control(c: char) -> bool {
    let n = c as u32;
    n == 0x61c || n == 0x180e || 0x200b <= n <= 0x200f || 0x202a <= n <= 0x202e || 0x2060 <= n
        <= 0x206f || n == 0xfeff
}

/// A character that may be given along.
pub open spec fn allowed(c: char) -> bool {
    (!control(c) || c == '\t' || c == '\n' || c == '\r') && !format_control(c)
}

/// Whether a character changes how others are shown.
pub fn pr_context_unicode_format_control(character: char) -> (r: bool)
    ensures
        r == format_control(character),
{
    let n: u32 = character as u32;
    n == 0x61c || n == 0x180e || (0x200b <= n && n <= 0x200f) || (0x202a <= n && n <= 0x202e) || (
    0x2060 <= n && n <= 0x206f) || n == 0xfeff
}

/// Whether a character may be given along.
pub fn pr_context_character_allowed(character: char) -> (r: bool)
    ensures
        r == allowed(character),
{
    let n: u32 = character as u32;
    let is_control = n < 0x20 || (0x7f <= n && n <= 0x9f);
    (!is_control || character == '\t' || character == '\n' || character == '\r')
        && !pr_context_unicode_format_control(character)
}

/// The characters that may be given along.
pub open spec fn allowed_chars(s: Seq<char>) -> Seq<char>
    decreases s.len(),
{
    if s.len() == 0 {
        s
    } else {
        let rest = allowed_chars(s.drop_last());
        if allowed(s.last()) {
            rest.push(s.last())
        } else {
            rest
        }
    }
}

/// Only characters that may be given along are left.
pub proof fn law_allowed_chars(s: Seq<char>)
    ensures
        forall|i: int|
            0 <= i < allowed_chars(s).len() ==> allowed(#[trigger] allowed_chars(s)[i]),
        (forall|i: int| 0 <= i < s.len() ==> allowed(#[trigger] s[i])) ==> allowed_chars(s) == s,
    decreases s.len(),
{
    if s.len() > 0 {
        law_allowed_chars(s.drop_last());
        let rest = allowed_chars(s.drop_last());
        assert forall|i: int| 0 <= i < allowed_chars(s).len() implies allowed(
            #[trigger] allowed_chars(s)[i],
        ) by {
            if i < rest.len() {
                assert(allowed(rest[i]));
            }
        }
        if forall|i: int| 0 <= i < s.len() ==> allowed(#[trigger] s[i]) {
            assert forall|i: int| 0 <= i < s.drop_last().len() implies allowed(
                #[trigger] s.drop_last()[i],
            ) by {
                assert(allowed(s[i]));
            }
            assert(s =~= s.drop_last().push(s.last()));
        }
    }
}

fn keep_allowed(s: &str) -> (r: String)
    ensures
        r@ == allowed_chars(s@),
{
    let v = chars_of(s);
    let mut r = String::new();
    let mut i: usize = 0;
    while i < v.len()
        invariant
            i <= v@.len(),
            v@ == s@,
            r@ == allowed_chars(s@.take(i as int)),
        decreases v@.len() - i,
    {
        proof {
            assert(s@.take(i + 1).drop_last() =~= s@.take(i as int));
            assert(s@.take(i + 1).last() == s@[i as int]);
        }
        if pr_context_character_allowed(v[i]) {
            r.push(v[i]);
        }
        i += 1;
    }
    proof {
        assert(s@.take(s@.len() as int) =~= s@);
    }
    r
}

/// A text is longer than it may be.
pub open spec fn exceeds(s: Seq<char>, max_bytes: nat, max_chars: nat) -> bool {
    s.len() > max_chars || counted_bytes(s) > max_bytes
}

/// The longest start of a text of so many characters and bytes.
pub open spec fn cut(s: Seq<char>, max_bytes: nat, max_chars: nat) -> Seq<char> {
    let head = if s.len() > max_chars {
        s.take(max_chars as int)
    } else {
        s
    };
    if exceeds(s, max_bytes, max_chars) {
        fitting(head, max_bytes)
    } else {
        s
    }
}

/// A text that was cut has no more characters and takes no more bytes than it may, and is
/// a start of what it was.
pub proof fn law_cut(s: Seq<char>, max_bytes: nat, max_chars: nat)
    requires
        max_bytes < usize::MAX,
    ensures
        cut(s, max_bytes, max_chars).len() <= max_chars,
        utf8_len(cut(s, max_bytes, max_chars)) <= max_bytes,
        cut(s, max_bytes, max_chars).is_prefix_of(s),
        !exceeds(s, max_bytes, max_chars) ==> cut(s, max_bytes, max_chars) == s,
{
    let head = if s.len() > max_chars {
        s.take(max_chars as int)
    } else {
        s
    };
    law_fitting(head, max_bytes);
}

/// Cuts a text that is longer than it may be. Whether anything was cut.
pub fn truncate_pull_request_context(
    contents: &mut String,
    max_bytes: usize,
    max_chars: usize,
) -> (r: bool)
    ensures
        r == exceeds(old(contents)@, max_bytes as nat, max_chars as nat),
        final(contents)@ == cut(old(contents)@, max_bytes as nat, max_chars as nat),
{
    let mut v = chars_of(contents.as_str());
    if v.len() <= max_chars && byte_len(contents.as_str()) <= max_bytes {
        return false;
    }
    let ghost all = v@;
    if v.len() > max_chars {
        v.truncate(max_chars);
        proof {
            assert(v@ =~= all.take(max_chars as int));
        }
    }
    let n: usize = fitting_chars(&v, max_bytes);
    let kept = text_of(&v, 0, n);
    proof {
        assert(kept@ =~= v@.take(n as int));
    }
    *contents = kept;
    true
}

/// A text of a pull request, and whether it was cut.
#[derive(Debug, PartialEq, Eq)]
pub struct SanitizedPullRequestText {
    pub value: String,
    pub truncated: bool,
}

/// The text of a field that is not blank, without characters that may not be given along
/// and no longer than it may be; with whether it was cut.
pub open spec fn sanitized(value: Seq<char>, max_bytes: nat, max_chars: nat) -> (Seq<char>, bool) {
    let kept = trimmed(allowed_chars(trimmed(value)));
    (cut(kept, max_bytes, max_chars), exceeds(kept, max_bytes, max_chars))
}

/// The text of a field of the pull request that an event is of.
pub open spec fn pull_request_text(
    event: JsonView,
    field: Seq<char>,
    max_bytes: nat,
    max_chars: nat,
) -> Option<(Seq<char>, bool)> {
    match event.get("pull_request"@) {
        None => None,
        Some(pull_request) => match pull_request.get(field) {
            None => None,
            Some(v) => match v.text() {
                None => None,
                Some(value) => if blank(value) {
                    None
                } else {
                    Some(sanitized(value, max_bytes, max_chars))
                },
            },
        },
    }
}

/// The view of a text of a pull request.
pub open spec fn opt_sanitized(t: Option<SanitizedPullRequestText>) -> Option<(Seq<char>, bool)> {
    match t {
        Some(x) => Some((x.value@, x.truncated)),
        None => None,
    }
}

/// The text of a field of the pull request that an event is of.
pub fn pull_request_text_field(
    event: &Json,
    field: &str,
    max_bytes: usize,
    max_chars: usize,
) -> (r: Option<SanitizedPullRequestText>)
    ensures
        opt_sanitized(r) == pull_request_text(
            json_view(*event),
            field@,
            max_bytes as nat,
            max_chars as nat,
        ),
{
    let pull_request = match event.get("pull_request") {
        Some(pull_request) => pull_request,
        None => {
            return None;
        },
    };
    let value = match pull_request.get(field) {
        Some(value) => value,
        None => {
            return None;
        },
    };
    let value = match value.as_str() {
        Some(value) => value,
        None => {
            return None;
        },
    };
    if is_blank(value) {
        return None;
    }
    let value = trim(value);
    let kept = keep_allowed(value.as_str());
    let mut kept = trim(kept.as_str());
    let truncated = truncate_pull_request_context(&mut kept, max_bytes, max_chars);
    Some(SanitizedPullRequestText { value: kept, truncated })
}

/// What a pull request says of itself.
#[derive(Debug, PartialEq, Eq)]
pub struct PullRequestContext {
    pub title: Option<String>,
    pub title_truncated: bool,
    pub description: Option<String>,
    pub description_truncated: bool,
}

/// What a pull request says of itself.
pub struct PullRequestView {
    pub title: Option<Seq<char>>,
    pub title_truncated: bool,
    pub description: Option<Seq<char>>,
    pub description_truncated: bool,
}

impl View for PullRequestContext {
    type V = PullRequestView;

    open spec fn view(&self) -> PullRequestView {
        PullRequestView {
            title: opt_view(self.title),
            title_truncated: self.title_truncated,
            description: opt_view(self.description),
            description_truncated: self.description_truncated,
        }
    }
}

/// A text and whether it was cut, apart.
pub open spec fn apart(text: Option<(Seq<char>, bool)>) -> (Option<Seq<char>>, bool) {
    match text {
        Some((value, truncated)) => (Some(value), truncated),
        None => (None, false),
    }
}

/// What the pull request that an event is of says of itself.
pub open spec fn pull_request_context(event: Option<JsonView>) -> PullRequestView {
    match event {
        None => PullRequestView {
            title: None,
            title_truncated: false,
            description: None,
            description_truncated: false,
        },
        Some(e) => {
            let title = apart(
                pull_request_text(
                    e,
                    "title"@,
                    MAX_PR_TITLE_BYTES as nat,
                    MAX_PR_TITLE_CHARS as nat,
                ),
            );
            let description = apart(
                pull_request_text(
                    e,
                    "body"@,
                    MAX_PR_DESCRIPTION_BYTES as nat,
                    MAX_PR_DESCRIPTION_CHARS as nat,
                ),
            );
            PullRequestView {
                title: title.0,
                title_truncated: title.1,
                description: description.0,
                description_truncated: description.1,
            }
        },
    }
}

fn take_apart(text: Option<SanitizedPullRequestText>) -> (r: (Option<String>, bool))
    ensures
        (opt_view(r.0), r.1) == apart(opt_sanitized(text)),
{
    match text {
        Some(t) => (Some(t.value), t.truncated),
        None => (None, false),
    }
}

/// What the pull request that an event is of says of itself.
pub fn select_pull_request_context(github_event: Option<&Json>) -> (r: PullRequestContext)
    ensures
        r@ == pull_request_context(opt_json_view(github_event)),
{
    match github_event {
        None => PullRequestContext {
            title: None,
            title_truncated: false,
            description: None,
            description_truncated: false,
        },
        Some(event) => {
            let (title, title_truncated) = take_apart(
                pull_request_text_field(event, "title", MAX_PR_TITLE_BYTES, MAX_PR_TITLE_CHARS),
            );
            let (description, description_truncated) = take_apart(
                pull_request_text_field(
                    event,
                    "body",
                    MAX_PR_DESCRIPTION_BYTES,
                    MAX_PR_DESCRIPTION_CHARS,
                ),
            );
            PullRequestContext { title, title_truncated, description, description_truncated }
        },
    }
}

/// What is told of a pull request is bounded.
pub proof fn law_pull_request_context_is_bounded(event: JsonView)
    ensures
        pull_request_context(Some(event)).title matches Some(title) ==> title.len()
            <= MAX_PR_TITLE_CHARS && utf8_len(title) <= MAX_PR_TITLE_BYTES,
        pull_request_context(Some(event)).description matches Some(description)
            ==> description.len() <= MAX_PR_DESCRIPTION_CHARS && utf8_len(description)
            <= MAX_PR_DESCRIPTION_BYTES,
{
    assert forall|value: Seq<char>| true implies {
        &&& (#[trigger] sanitized(
            value,
            MAX_PR_TITLE_BYTES as nat,
            MAX_PR_TITLE_CHARS as nat,
        )).0.len() <= MAX_PR_TITLE_CHARS
        &&& utf8_len(
            sanitized(value, MAX_PR_TITLE_BYTES as nat, MAX_PR_TITLE_CHARS as nat).0,
        ) <= MAX_PR_TITLE_BYTES
    } by {
        law_cut(
            trimmed(allowed_chars(trimmed(value))),
            MAX_PR_TITLE_BYTES as nat,
            MAX_PR_TITLE_CHARS as nat,
        );
    }
    assert forall|value: Seq<char>| true implies {
        &&& (#[trigger] sanitized(
            value,
            MAX_PR_DESCRIPTION_BYTES as nat,
            MAX_PR_DESCRIPTION_CHARS as nat,
        )).0.len() <= MAX_PR_DESCRIPTION_CHARS
        &&& utf8_len(
            sanitized(
                value,
                MAX_PR_DESCRIPTION_BYTES as nat,
                MAX_PR_DESCRIPTION_CHARS as nat,
            ).0,
        ) <= MAX_PR_DESCRIPTION_BYTES
    } by {
        law_cut(
            trimmed(allowed_chars(trimmed(value))),
            MAX_PR_DESCRIPTION_BYTES as nat,
            MAX_PR_DESCRIPTION_CHARS as nat,
        );
    }
}

// ---------------------------------------------------------------------------
// What holds of it
// ---------------------------------------------------------------------------

/// A commit is named by 40 or 64 hexadecimal digits.
pub proof fn law_commit_names(value: Seq<char>)
    ensures
        git_sha(value) <==> (value.len() == 40 || value.len() == 64) && forall|i: int|
            0 <= i < value.len() ==> ('0' <= #[trigger] value[i] <= '9' || 'a' <= value[i] <= 'f'
                || 'A' <= value[i] <= 'F'),
{
    if git_sha(value) {
        assert forall|i: int| 0 <= i < value.len() implies ('0' <= #[trigger] value[i] <= '9'
            || 'a' <= value[i] <= 'f' || 'A' <= value[i] <= 'F') by {
            assert(hex_digit(value[i]));
        }
    }
}

/// The files that changed are the lines that are not blank, trimmed, in their order.
pub proof fn law_changed_files(lines: Seq<Seq<char>>, line: Seq<char>)
    ensures
        named_files(Seq::empty()).len() == 0,
        blank(line) ==> named_files(lines.push(line)) == named_files(lines),
        !blank(line) ==> named_files(lines.push(line)) == named_files(lines).push(trimmed(line)),
{
    assert(lines.push(line).drop_last() =~= lines);
}

/// The contract changed exactly if a file changed that states it.
pub proof fn law_contract_files(changed_files: Seq<Seq<char>>, i: int)
    requires
        0 <= i < changed_files.len(),
    ensures
        changed_files[i] == "AGENTS.md"@ || changed_files[i] == "README.md"@ || changed_files[i]
            == ".reviewgate.yml"@ || changed_files[i] == "action.yml"@
            || ".github/workflows/"@.is_prefix_of(changed_files[i]) || "docs/"@.is_prefix_of(
            changed_files[i],
        ) ==> contract_changed(changed_files),
        contract_changed(changed_files) ==> exists|k: int|
            0 <= k < changed_files.len() && contract_file(#[trigger] changed_files[k]),
        !contract_changed(Seq::empty()),
{
    if contract_file(changed_files[i]) {
        assert(contract_changed(changed_files));
    }
}

/// What is compared: the last head that was reviewed with success, or else the last that
/// was reviewed, with this one; nothing where they are the same, and only names of commits.
pub proof fn law_deltas(last_valid: Option<Seq<char>>, last: Seq<char>, current: Seq<char>)
    ensures
        ({
            let previous = last_valid.unwrap_or(last);
            &&& !git_sha(previous) || !git_sha(current) ==> delta_plan(last_valid, last, current)
                is Err
            &&& git_sha(previous) && git_sha(current) && previous == current ==> delta_plan(
                last_valid,
                last,
                current,
            ) == Ok::<DeltaView, Seq<char>>(DeltaView::Unchanged)
            &&& git_sha(previous) && git_sha(current) && previous != current ==> delta_plan(
                last_valid,
                last,
                current,
            ) == Ok::<DeltaView, Seq<char>>(
                DeltaView::Compare { previous_sha: previous, range: previous + ".."@ + current },
            )
        }),
{
}

/// The head that is reviewed is that of the event, where it names one, and what is checked
/// out otherwise.
pub proof fn law_reviewed_heads(checkout: Seq<char>, event: JsonView, sha: Seq<char>)
    ensures
        reviewed_sha(checkout, None) == checkout,
        text_at(event, "pull_request.head.sha"@) == Some(sha) && !blank(sha) ==> reviewed_sha(
            checkout,
            Some(event),
        ) == sha,
        text_at(event, "pull_request.head.sha"@) is None ==> reviewed_sha(checkout, Some(event))
            == checkout,
        text_at(event, "pull_request.head.sha"@) == Some(sha) && blank(sha) ==> reviewed_sha(
            checkout,
            Some(event),
        ) == checkout,
{
}

/// A review is of a pull request exactly if the event and the repository are known and the
/// event has its number.
pub proof fn law_scopes(event: JsonView, repository: Seq<char>)
    ensures
        unsigned_at(event, "pull_request.number"@) matches Some(n) ==> scope_of(
            Some(event),
            Some(repository),
        ) == (ScopeView::PullRequest { repository, pull_request_number: n }),
        unsigned_at(event, "pull_request.number"@) is None ==> scope_of(
            Some(event),
            Some(repository),
        ) == ScopeView::Local,
        scope_of(None, Some(repository)) == ScopeView::Local,
        scope_of(Some(event), None) == ScopeView::Local,
{
}

/// Characters that are allowed are kept in their order, and others are dropped.
pub proof fn law_kept_characters(s: Seq<char>, c: char)
    ensures
        allowed(c) ==> allowed_chars(s.push(c)) == allowed_chars(s).push(c),
        !allowed(c) ==> allowed_chars(s.push(c)) == allowed_chars(s),
        allowed_chars(Seq::empty()).len() == 0,
        ' ' <= c <= '~' ==> allowed(c),
        c == '\n' || c == '\t' || c == '\r' ==> allowed(c),
        (c as u32) < 0x20 && c != '\n' && c != '\t' && c != '\r' ==> !allowed(c),
        0x202a <= (c as u32) <= 0x202e || 0x200b <= (c as u32) <= 0x200f || 0x2060 <= (c as u32)
            <= 0x206f || (c as u32) == 0xfeff || (c as u32) == 0x7f ==> !allowed(c),
{
    assert(s.push(c).drop_last() =~= s);
}

/// A text is told to be cut exactly if it is too long, in characters or in bytes.
pub proof fn law_long_texts_are_cut(s: Seq<char>, max_bytes: nat, max_chars: nat)
    requires
        max_bytes < usize::MAX,
    ensures
        exceeds(s, max_bytes, max_chars) <==> s.len() > max_chars || utf8_len(s) > max_bytes,
        s.len() > max_chars && utf8_len(s.take(max_chars as int)) <= max_bytes ==> cut(
            s,
            max_bytes,
            max_chars,
        ) == s.take(max_chars as int),
{
    if s.len() > max_chars {
        crate::bytes::law_fitting(s.take(max_chars as int), max_bytes);
    }
}

/// What a pull request says of itself is told where it is not blank, without space around
/// it and without characters that are not allowed, from the title and the body.
pub proof fn law_pull_request_texts(event: JsonView, field: Seq<char>, value: Seq<char>)
    requires
        event.get("pull_request"@) matches Some(p) && p.get(field) == Some(JsonView::Text(value)),
    ensures
        blank(value) ==> pull_request_text(event, field, 1000, 500) is None,
        !blank(value) ==> (pull_request_text(event, field, 1000, 500) matches Some((text, cut_off))
            && text.is_prefix_of(trimmed(allowed_chars(trimmed(value)))) && (cut_off <==> exceeds(
            trimmed(allowed_chars(trimmed(value))),
            1000,
            500,
        )) && (!cut_off ==> text == trimmed(allowed_chars(trimmed(value))))),
        field == "title"@ && !blank(value) ==> pull_request_context(Some(event)).title is Some,
        field == "title"@ && blank(value) ==> pull_request_context(Some(event)).title is None,
        field == "body"@ && !blank(value) ==> pull_request_context(Some(event)).description is Some,
        field == "body"@ && blank(value) ==> pull_request_context(Some(event)).description is None,
{
    law_cut(trimmed(allowed_chars(trimmed(value))), 1000, 500);
}

} // verus!
