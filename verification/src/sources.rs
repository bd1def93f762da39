//! Where the instructions of configured angles come from.
use vstd::prelude::*;

use crate::angles::{
    adversarial_angle, angle_views, builtin_review_angles, general_angle, runs, runs_from,
    AngleView, ReviewAngle, ReviewAngleSource, SourceView, WordKind,
};
use crate::bytes::{byte_len, counted_bytes, fit, fitting, law_fitting, utf8_len};
use crate::config::{angle_config_views, AngleConfigView, ReviewAngleConfig, ReviewConfigValues};
use crate::list::holds;
use crate::paths::{
    file_name, file_name_of, in_repository, resolve_repo_path, safe_relative, safe_relative_path,
};
use crate::reading::result_view;
use crate::split::{blank, is_blank, trim, trimmed};
use crate::text::{
    ascii_alphanumeric, chars_of, concat2, concat3, is_ascii_alphanumeric, join, joined, same_text,
    text_of, to_upper_char, upper_char, views,
};

verus! {

/// The bytes of instructions that an angle may have.
pub const MAX_REVIEW_ANGLE_INSTRUCTIONS_BYTES: usize = 80000;

// ---------------------------------------------------------------------------
// Identifiers
// ---------------------------------------------------------------------------

/// The identifier of an angle is made of these characters.
pub open spec fn angle_id_char(c: char) -> bool {
    ascii_alphanumeric(c) || c == '_' || c == '-'
}

/// All characters may stand in the identifier of an angle.
pub open spec fn all_angle_id_chars(s: Seq<char>) -> bool {
    forall|i: int| 0 <= i < s.len() ==> angle_id_char(#[trigger] s[i])
}

/// The identifier of an angle, without the space around it.
pub open spec fn angle_id(value: Seq<char>) -> Result<Seq<char>, Seq<char>> {
    let id = trimmed(value);
    if id.len() == 0 {
        Err("review angle id must not be empty"@)
    } else if !all_angle_id_chars(id) {
        Err(
            "review angle id `"@ + id
                + "` may only contain ASCII letters, numbers, `_`, or `-`"@,
        )
    } else {
        Ok(id)
    }
}

fn has_only_angle_id_chars(s: &str) -> (r: bool)
    ensures
        r == all_angle_id_chars(s@),
{
    let v = chars_of(s);
    let mut i: usize = 0;
    while i < v.len()
        invariant
            i <= v@.len(),
            v@ == s@,
            forall|k: int| 0 <= k < i ==> angle_id_char(#[trigger] v@[k]),
        decreases v@.len() - i,
    {
        if !(is_ascii_alphanumeric(v[i]) || v[i] == '_' || v[i] == '-') {
            proof {
                assert(!angle_id_char(s@[i as int]));
            }
            return false;
        }
        i += 1;
    }
    true
}

/// The identifier of an angle, without the space around it.
pub fn normalize_review_angle_id(value: &str) -> (r: Result<String, String>)
    ensures
        result_view(r) == angle_id(value@),
{
    let id = trim(value);
    if id.as_str().is_empty() {
        return Err("review angle id must not be empty".to_owned());
    }
    if !has_only_angle_id_chars(id.as_str()) {
        return Err(
            concat3(
                "review angle id `",
                id.as_str(),
                "` may only contain ASCII letters, numbers, `_`, or `-`",
            ),
        );
    }
    Ok(id)
}

/// The word with a capital letter.
pub open spec fn capitalized(word: Seq<char>) -> Seq<char> {
    if word.len() == 0 {
        word
    } else {
        word.update(0, upper_char(word[0]))
    }
}

/// A name for an identifier: its words with capital letters.
pub open spec fn humanized(id: Seq<char>) -> Seq<char> {
    let words = runs_from(id, WordKind::NamePart, 0);
    let name = joined(words.map_values(|w: Seq<char>| capitalized(w)), " "@);
    if name.len() == 0 {
        id
    } else {
        name
    }
}

fn capitalize(word: &str) -> (r: String)
    ensures
        r@ == capitalized(word@),
{
    let mut v = chars_of(word);
    if v.len() == 0 {
        return word.to_owned();
    }
    let first = to_upper_char(v[0]);
    v.set(0, first);
    let r = text_of(&v, 0, v.len());
    proof {
        assert(r@ =~= capitalized(word@));
    }
    r
}

/// A name for an identifier: its words with capital letters.
pub fn humanize_review_angle_id(id: &str) -> (r: String)
    ensures
        r@ == humanized(id@),
{
    let words = runs(id, WordKind::NamePart);
    let ghost all = views(words@).map_values(|w: Seq<char>| capitalized(w));
    let mut names: Vec<String> = Vec::new();
    let mut i: usize = 0;
    proof {
        assert(views(names@) =~= all.take(0));
    }
    while i < words.len()
        invariant
            i <= words@.len(),
            all == views(words@).map_values(|w: Seq<char>| capitalized(w)),
            views(names@) == all.take(i as int),
        decreases words@.len() - i,
    {
        let name = capitalize(words[i].as_str());
        let ghost before = views(names@);
        names.push(name);
        proof {
            assert(views(names@) =~= before.push(name@));
            assert(all[i as int] == name@);
            assert(views(names@) =~= all.take(i + 1));
        }
        i += 1;
    }
    proof {
        assert(all.take(all.len() as int) =~= all);
    }
    let name = join(&names, " ");
    if name.as_str().is_empty() {
        id.to_owned()
    } else {
        name
    }
}

// ---------------------------------------------------------------------------
// Paths
// ---------------------------------------------------------------------------

/// A path as it is shown: with slashes for backslashes.
pub open spec fn displayed_path(path: Seq<char>) -> Seq<char> {
    path.map_values(
        |c: char|
            if c == '\\' {
                '/'
            } else {
                c
            },
    )
}

/// A path as it is shown.
pub fn display_repo_relative_path(path: &str) -> (r: String)
    ensures
        r@ == displayed_path(path@),
{
    let v = chars_of(path);
    let mut shown: Vec<char> = Vec::new();
    let mut i: usize = 0;
    while i < v.len()
        invariant
            i <= v@.len(),
            shown@ == displayed_path(v@).take(i as int),
        decreases v@.len() - i,
    {
        shown.push(
            if v[i] == '\\' {
                '/'
            } else {
                v[i]
            },
        );
        proof {
            assert(shown@ =~= displayed_path(v@).take(i + 1));
        }
        i += 1;
    }
    let r = text_of(&shown, 0, shown.len());
    proof {
        assert(r@ =~= displayed_path(path@));
    }
    r
}

/// A path that a configuration names: one below the repository, with how it is shown.
pub open spec fn config_path(angle_id: Seq<char>, field: Seq<char>, value: Seq<char>) -> Result<
    (Seq<char>, Seq<char>),
    Seq<char>,
> {
    let path = trimmed(value);
    if safe_relative(path) {
        Ok((path, displayed_path(path)))
    } else {
        Err(
            "review angle "@ + angle_id + " "@ + field
                + " must be repo-relative and cannot contain `..`"@,
        )
    }
}

/// The pair of texts or what is wrong with it.
pub open spec fn pair_result(r: Result<(String, String), String>) -> Result<
    (Seq<char>, Seq<char>),
    Seq<char>,
> {
    match r {
        Ok((a, b)) => Ok((a@, b@)),
        Err(e) => Err(e@),
    }
}

/// A path that a configuration names, with how it is shown.
pub fn resolve_config_repo_path(angle_id: &str, field: &str, value: &str) -> (r: Result<
    (String, String),
    String,
>)
    ensures
        pair_result(r) == config_path(angle_id@, field@, value@),
{
    let path = trim(value);
    match safe_relative_path(path.as_str()) {
        Some(relative) => {
            let shown = display_repo_relative_path(relative.as_str());
            Ok((relative, shown))
        },
        None => {
            let head = concat3("review angle ", angle_id, " ");
            Err(
                concat3(
                    head.as_str(),
                    field,
                    " must be repo-relative and cannot contain `..`",
                ),
            )
        },
    }
}

/// What stands at the path of a skill.
#[derive(Debug, Clone, Copy, PartialEq, Eq, Structural)]
pub struct SkillPlace {
    /// The path is a directory.
    pub is_directory: bool,
    /// The path is a file.
    pub is_file: bool,
    /// The file of a skill lies below the path.
    pub has_skill_file: bool,
}

/// The file of a skill.
pub open spec fn skill_file(relative: Seq<char>, place: SkillPlace) -> Seq<char> {
    let below = in_repository(relative, "SKILL.md"@);
    if place.is_directory {
        below
    } else if place.is_file {
        relative
    } else if place.has_skill_file {
        below
    } else if file_name_of(relative) == Some("SKILL.md"@) {
        relative
    } else {
        below
    }
}

/// The file of a skill.
pub fn resolve_skill_file_relative_path(relative: &str, place: SkillPlace) -> (r: String)
    ensures
        r@ == skill_file(relative@, place),
{
    let below = resolve_repo_path(relative, "SKILL.md");
    if place.is_directory {
        return below;
    }
    if place.is_file {
        return relative.to_owned();
    }
    if place.has_skill_file {
        return below;
    }
    match file_name(relative) {
        Some(name) => {
            if same_text(name.as_str(), "SKILL.md") {
                relative.to_owned()
            } else {
                below
            }
        },
        None => below,
    }
}

// ---------------------------------------------------------------------------
// Texts
// ---------------------------------------------------------------------------

/// What stands behind a text that was cut.
pub open spec fn truncated_marker() -> Seq<char> {
    "\n[truncated]\n"@
}

/// A text of at most `max` bytes, or the longest start of it that is, marked as cut.
pub open spec fn truncated_contents(contents: Seq<char>, max: nat) -> Seq<char> {
    if counted_bytes(contents) <= max {
        contents
    } else {
        fitting(contents, max) + truncated_marker()
    }
}

/// Cuts a text of more than `max_bytes` bytes and marks it as cut.
pub fn truncate_context_contents(contents: &mut String, max_bytes: usize)
    ensures
        final(contents)@ == truncated_contents(old(contents)@, max_bytes as nat),
{
    if byte_len(contents.as_str()) <= max_bytes {
        return;
    }
    let head = fit(contents.as_str(), max_bytes);
    *contents = concat2(head.as_str(), "\n[truncated]\n");
}

/// A text that was cut takes no more bytes than it may and its mark.
pub proof fn law_truncated_contents(contents: Seq<char>, max: nat)
    requires
        max < usize::MAX,
    ensures
        utf8_len(truncated_contents(contents, max)) <= max + utf8_len(truncated_marker()),
        utf8_len(contents) <= max ==> truncated_contents(contents, max) == contents,
{
    law_fitting(contents, max);
    crate::bytes::lemma_utf8_len_concat(fitting(contents, max), truncated_marker());
}

/// What was found at a path that instructions are to be read from.
#[derive(Debug, PartialEq, Eq)]
pub enum LoadedText {
    /// No regular file of the repository.
    Refused,
    /// A file that could not be read, and why.
    Failed { error: String },
    /// A file that is no text.
    Binary { path: String },
    /// A text.
    Text { text: String },
}

/// What was found at a path.
pub enum LoadedView {
    Refused,
    Failed { error: Seq<char> },
    Binary { path: Seq<char> },
    Text { text: Seq<char> },
}

impl View for LoadedText {
    type V = LoadedView;

    open spec fn view(&self) -> LoadedView {
        match self {
            LoadedText::Refused => LoadedView::Refused,
            LoadedText::Failed { error } => LoadedView::Failed { error: error@ },
            LoadedText::Binary { path } => LoadedView::Binary { path: path@ },
            LoadedText::Text { text } => LoadedView::Text { text: text@ },
        }
    }
}

/// The instructions that were found.
pub open spec fn loaded_instructions(loaded: LoadedView, label: Seq<char>) -> Result<
    Seq<char>,
    Seq<char>,
> {
    match loaded {
        LoadedView::Refused => Err(
            label + " must be a regular non-symlink repository file"@,
        ),
        LoadedView::Failed { error } => Err(error),
        LoadedView::Binary { path } => Err(label + " "@ + path + " must be UTF-8 text"@),
        LoadedView::Text { text } => Ok(
            truncated_contents(text, MAX_REVIEW_ANGLE_INSTRUCTIONS_BYTES as nat),
        ),
    }
}

/// The instructions that were found.
pub fn read_bounded_repo_text_file(loaded: &LoadedText, label: &str) -> (r: Result<String, String>)
    ensures
        result_view(r) == loaded_instructions(loaded@, label@),
{
    match loaded {
        LoadedText::Refused => Err(
            concat2(label, " must be a regular non-symlink repository file"),
        ),
        LoadedText::Failed { error } => Err(error.clone()),
        LoadedText::Binary { path } => {
            let head = concat3(label, " ", path.as_str());
            Err(concat2(head.as_str(), " must be UTF-8 text"))
        },
        LoadedText::Text { text } => {
            let mut contents = text.clone();
            truncate_context_contents(&mut contents, MAX_REVIEW_ANGLE_INSTRUCTIONS_BYTES);
            Ok(contents)
        },
    }
}

// ---------------------------------------------------------------------------
// Angles
// ---------------------------------------------------------------------------

/// What was found at the path that a configured angle names, if it names one.
#[derive(Debug, PartialEq, Eq)]
pub struct LoadedSource {
    pub place: SkillPlace,
    pub text: LoadedText,
}

/// What was found at the path that a configured angle names.
pub struct LoadedSourceView {
    pub place: SkillPlace,
    pub text: LoadedView,
}

impl View for LoadedSource {
    type V = LoadedSourceView;

    open spec fn view(&self) -> LoadedSourceView {
        LoadedSourceView { place: self.place, text: self.text@ }
    }
}

/// What was found at paths.
pub open spec fn loaded_source_views(s: Seq<LoadedSource>) -> Seq<LoadedSourceView> {
    s.map_values(|x: LoadedSource| x@)
}

/// How many of the three are there.
pub open spec fn count_some(
    a: Option<Seq<char>>,
    b: Option<Seq<char>>,
    c: Option<Seq<char>>,
) -> int {
    (if a is Some {
        1int
    } else {
        0
    }) + (if b is Some {
        1int
    } else {
        0
    }) + (if c is Some {
        1int
    } else {
        0
    })
}

/// The instructions of an angle, where they come from, and the reason for the angle where
/// none is configured.
pub struct AngleInstructions {
    pub instructions: Seq<char>,
    pub source: SourceView,
    pub default_reason: Seq<char>,
}

/// The instructions that a configured angle has from its one source.
pub open spec fn angle_instructions(
    id: Seq<char>,
    config: AngleConfigView,
    loaded: LoadedSourceView,
) -> Result<AngleInstructions, Seq<char>> {
    if let Some(prompt) = config.prompt {
        Ok(
            AngleInstructions {
                instructions: prompt,
                source: SourceView::InlinePrompt,
                default_reason: "Configured inline prompt review angle."@,
            },
        )
    } else if let Some(prompt_file) = config.prompt_file {
        match config_path(id, "prompt_file"@, prompt_file) {
            Err(e) => Err(e),
            Ok((_, shown)) => match loaded_instructions(
                loaded.text,
                "review angle prompt file"@,
            ) {
                Err(e) => Err(e),
                Ok(instructions) => Ok(
                    AngleInstructions {
                        instructions,
                        source: SourceView::PromptFile { path: shown },
                        default_reason: "Configured prompt-file review angle."@,
                    },
                ),
            },
        }
    } else {
        match config_path(id, "skill"@, config.skill.unwrap()) {
            Err(e) => Err(e),
            Ok((relative, _)) => {
                let path = displayed_path(skill_file(relative, loaded.place));
                match loaded_instructions(loaded.text, "review angle skill"@) {
                    Err(e) => Err(e),
                    Ok(instructions) => Ok(
                        AngleInstructions {
                            instructions,
                            source: SourceView::Skill { path },
                            default_reason: "Configured skill-backed review angle from "@ + path
                                + "."@,
                        },
                    ),
                }
            },
        }
    }
}

/// The angle that a configured one stands for, given what was found at the path that it
/// names.
pub open spec fn resolved_angle(config: AngleConfigView, loaded: LoadedSourceView) -> Result<
    AngleView,
    Seq<char>,
> {
    match angle_id(config.id) {
        Err(e) => Err(e),
        Ok(id) => if count_some(config.prompt, config.prompt_file, config.skill) != 1 {
            Err(
                "review angle "@ + id
                    + " must set exactly one of prompt, prompt_file, or skill"@,
            )
        } else {
            match angle_instructions(id, config, loaded) {
                Err(e) => Err(e),
                Ok(a) => Ok(
                    AngleView {
                        id,
                        name: match config.name {
                            Some(name) => name,
                            None => humanized(id),
                        },
                        instructions: a.instructions,
                        reason: match config.reason {
                            Some(reason) => if blank(reason) {
                                a.default_reason
                            } else {
                                reason
                            },
                            None => a.default_reason,
                        },
                        source: a.source,
                    },
                ),
            }
        },
    }
}

fn one_source(config: &ReviewAngleConfig) -> (r: bool)
    ensures
        r == (count_some(config@.prompt, config@.prompt_file, config@.skill) == 1),
{
    let mut count: u8 = 0;
    if config.prompt.is_some() {
        count += 1;
    }
    if config.prompt_file.is_some() {
        count += 1;
    }
    if config.skill.is_some() {
        count += 1;
    }
    count == 1
}

/// The instructions of an angle, where they come from and the reason for it.
struct LoadedAngle {
    instructions: String,
    source: ReviewAngleSource,
    default_reason: String,
}

impl View for LoadedAngle {
    type V = AngleInstructions;

    closed spec fn view(&self) -> AngleInstructions {
        AngleInstructions {
            instructions: self.instructions@,
            source: self.source@,
            default_reason: self.default_reason@,
        }
    }
}

fn load_angle(id: &str, config: &ReviewAngleConfig, loaded: &LoadedSource) -> (r: Result<
    LoadedAngle,
    String,
>)
    requires
        count_some(config@.prompt, config@.prompt_file, config@.skill) == 1,
    ensures
        result_view(r) == angle_instructions(id@, config@, loaded@),
{
    if let Some(prompt) = &config.prompt {
        return Ok(
            LoadedAngle {
                instructions: prompt.clone(),
                source: ReviewAngleSource::InlinePrompt,
                default_reason: "Configured inline prompt review angle.".to_owned(),
            },
        );
    }
    if let Some(prompt_file) = &config.prompt_file {
        let (_, shown) = match resolve_config_repo_path(id, "prompt_file", prompt_file.as_str()) {
            Ok(pair) => pair,
            Err(e) => {
                return Err(e);
            },
        };
        return match read_bounded_repo_text_file(&loaded.text, "review angle prompt file") {
            Err(e) => Err(e),
            Ok(instructions) => Ok(
                LoadedAngle {
                    instructions,
                    source: ReviewAngleSource::PromptFile { path: shown },
                    default_reason: "Configured prompt-file review angle.".to_owned(),
                },
            ),
        };
    }
    match &config.skill {
        Some(skill) => {
            let (relative, _) = match resolve_config_repo_path(id, "skill", skill.as_str()) {
                Ok(pair) => pair,
                Err(e) => {
                    return Err(e);
                },
            };
            let file = resolve_skill_file_relative_path(relative.as_str(), loaded.place);
            let path = display_repo_relative_path(file.as_str());
            match read_bounded_repo_text_file(&loaded.text, "review angle skill") {
                Err(e) => Err(e),
                Ok(instructions) => {
                    let default_reason = concat3(
                        "Configured skill-backed review angle from ",
                        path.as_str(),
                        ".",
                    );
                    Ok(
                        LoadedAngle {
                            instructions,
                            source: ReviewAngleSource::Skill { path },
                            default_reason,
                        },
                    )
                },
            }
        },
        None => {
            proof {
                assert(false);
            }
            Err(String::new())
        },
    }
}

/// The angle that a configured one stands for, given what was found at the path that it
/// names.
pub fn resolve_review_angle(config: &ReviewAngleConfig, loaded: &LoadedSource) -> (r: Result<
    ReviewAngle,
    String,
>)
    ensures
        result_view(r) == resolved_angle(config@, loaded@),
{
    let id = match normalize_review_angle_id(config.id.as_str()) {
        Ok(id) => id,
        Err(e) => {
            return Err(e);
        },
    };
    if !one_source(config) {
        return Err(
            concat3(
                "review angle ",
                id.as_str(),
                " must set exactly one of prompt, prompt_file, or skill",
            ),
        );
    }
    let found = match load_angle(id.as_str(), config, loaded) {
        Ok(found) => found,
        Err(e) => {
            return Err(e);
        },
    };
    let name = match &config.name {
        Some(name) => name.clone(),
        None => humanize_review_angle_id(id.as_str()),
    };
    let reason = match &config.reason {
        Some(reason) => {
            if is_blank(reason.as_str()) {
                found.default_reason
            } else {
                reason.clone()
            }
        },
        None => found.default_reason,
    };
    Ok(
        ReviewAngle {
            id,
            name,
            instructions: found.instructions,
            reason,
            source: found.source,
        },
    )
}

/// The identifiers of the first `upto` configured angles, none of which may occur twice.
pub open spec fn distinct_ids(configs: Seq<AngleConfigView>) -> Result<Seq<Seq<char>>, Seq<char>>
    decreases configs.len(),
{
    if configs.len() == 0 {
        Ok(Seq::empty())
    } else {
        match distinct_ids(configs.drop_last()) {
            Err(e) => Err(e),
            Ok(seen) => match angle_id(configs.last().id) {
                Err(e) => Err(e),
                Ok(id) => if seen.contains(id) {
                    Err("duplicate ReviewGate review angle id `"@ + id + "`"@)
                } else {
                    Ok(seen.push(id))
                },
            },
        }
    }
}

proof fn lemma_failed_ids(configs: Seq<AngleConfigView>, n: int)
    requires
        0 <= n <= configs.len(),
        distinct_ids(configs.take(n)) is Err,
    ensures
        distinct_ids(configs) == distinct_ids(configs.take(n)),
    decreases configs.len() - n,
{
    if n == configs.len() {
        assert(configs.take(n) =~= configs);
    } else {
        assert(configs.take(n + 1).drop_last() =~= configs.take(n));
        lemma_failed_ids(configs, n + 1);
    }
}

/// The texts or what is wrong with them.
pub open spec fn texts_result(r: Result<Vec<String>, String>) -> Result<Seq<Seq<char>>, Seq<char>> {
    match r {
        Ok(v) => Ok(views(v@)),
        Err(e) => Err(e@),
    }
}

/// The identifiers of configured angles, none of which may occur twice.
pub fn check_review_angle_ids(configs: &Vec<ReviewAngleConfig>) -> (r: Result<
    Vec<String>,
    String,
>)
    ensures
        texts_result(r) == distinct_ids(angle_config_views(configs@)),
{
    let ghost all = angle_config_views(configs@);
    let mut seen: Vec<String> = Vec::new();
    let mut i: usize = 0;
    proof {
        assert(views(seen@) =~= Seq::empty());
    }
    while i < configs.len()
        invariant
            i <= configs@.len(),
            all == angle_config_views(configs@),
            distinct_ids(all.take(i as int)) == Ok::<Seq<Seq<char>>, Seq<char>>(views(seen@)),
        decreases configs@.len() - i,
    {
        proof {
            assert(all.take(i + 1).drop_last() =~= all.take(i as int));
            assert(all.take(i + 1).last() == configs@[i as int]@);
        }
        let id = match normalize_review_angle_id(configs[i].id.as_str()) {
            Ok(id) => id,
            Err(e) => {
                proof {
                    lemma_failed_ids(all, i + 1);
                }
                return Err(e);
            },
        };
        if holds(&seen, id.as_str()) {
            proof {
                lemma_failed_ids(all, i + 1);
            }
            return Err(concat3("duplicate ReviewGate review angle id `", id.as_str(), "`"));
        }
        let ghost before = views(seen@);
        let ghost added = id@;
        seen.push(id);
        proof {
            assert(views(seen@) =~= before.push(added));
        }
        i += 1;
    }
    proof {
        assert(all.take(all.len() as int) =~= all);
    }
    Ok(seen)
}

/// The angles that configured ones stand for.
pub open spec fn resolved_all(
    configs: Seq<AngleConfigView>,
    loaded: Seq<LoadedSourceView>,
) -> Result<Seq<AngleView>, Seq<char>>
    decreases configs.len(),
{
    if configs.len() == 0 {
        Ok(Seq::empty())
    } else {
        match resolved_all(configs.drop_last(), loaded) {
            Err(e) => Err(e),
            Ok(angles) => match resolved_angle(configs.last(), loaded[configs.len() - 1]) {
                Err(e) => Err(e),
                Ok(angle) => Ok(angles.push(angle)),
            },
        }
    }
}

proof fn lemma_failed_angles(
    configs: Seq<AngleConfigView>,
    loaded: Seq<LoadedSourceView>,
    n: int,
)
    requires
        0 <= n <= configs.len(),
        resolved_all(configs.take(n), loaded) is Err,
    ensures
        resolved_all(configs, loaded) == resolved_all(configs.take(n), loaded),
    decreases configs.len() - n,
{
    if n == configs.len() {
        assert(configs.take(n) =~= configs);
    } else {
        assert(configs.take(n + 1).drop_last() =~= configs.take(n));
        lemma_failed_angles(configs, loaded, n + 1);
    }
}

/// The angles of a review: those that are configured, each with its own identifier, or
/// the built-in ones where there is no list.
pub open spec fn review_angles(
    configs: Option<Seq<AngleConfigView>>,
    loaded: Seq<LoadedSourceView>,
    general: Seq<char>,
    adversarial: Seq<char>,
) -> Result<Seq<AngleView>, Seq<char>> {
    match configs {
        None => Ok(seq![general_angle(general), adversarial_angle(adversarial)]),
        Some(configs) => if configs.len() == 0 {
            Err("review_angles must include at least one angle"@)
        } else {
            match distinct_ids(configs) {
                Err(e) => Err(e),
                Ok(_) => resolved_all(configs, loaded),
            }
        },
    }
}

/// The angles or what is wrong with them.
pub open spec fn angles_result(r: Result<Vec<ReviewAngle>, String>) -> Result<
    Seq<AngleView>,
    Seq<char>,
> {
    match r {
        Ok(v) => Ok(angle_views(v@)),
        Err(e) => Err(e@),
    }
}

fn resolve_all(configs: &Vec<ReviewAngleConfig>, loaded: &Vec<LoadedSource>) -> (r: Result<
    Vec<ReviewAngle>,
    String,
>)
    requires
        configs@.len() == loaded@.len(),
    ensures
        angles_result(r) == resolved_all(
            angle_config_views(configs@),
            loaded_source_views(loaded@),
        ),
{
    let ghost all = angle_config_views(configs@);
    let ghost found = loaded_source_views(loaded@);
    let mut angles: Vec<ReviewAngle> = Vec::new();
    let mut i: usize = 0;
    proof {
        assert(angle_views(angles@) =~= Seq::empty());
    }
    while i < configs.len()
        invariant
            i <= configs@.len(),
            configs@.len() == loaded@.len(),
            all == angle_config_views(configs@),
            found == loaded_source_views(loaded@),
            resolved_all(all.take(i as int), found) == Ok::<Seq<AngleView>, Seq<char>>(
                angle_views(angles@),
            ),
        decreases configs@.len() - i,
    {
        proof {
            assert(all.take(i + 1).drop_last() =~= all.take(i as int));
            assert(all.take(i + 1).last() == configs@[i as int]@);
            assert(found[i as int] == loaded@[i as int]@);
        }
        match resolve_review_angle(&configs[i], &loaded[i]) {
            Ok(angle) => {
                let ghost before = angle_views(angles@);
                angles.push(angle);
                proof {
                    assert(angle_views(angles@) =~= before.push(angle@));
                }
            },
            Err(e) => {
                proof {
                    lemma_failed_angles(all, found, i + 1);
                }
                return Err(e);
            },
        }
        i += 1;
    }
    proof {
        assert(all.take(all.len() as int) =~= all);
    }
    Ok(angles)
}

/// The angles of a review, given what was found at the path that each configured one names
/// and the instructions of the built-in ones.
pub fn resolve_review_angles(
    config_values: &ReviewConfigValues,
    loaded: &Vec<LoadedSource>,
    general: &str,
    adversarial: &str,
) -> (r: Result<Vec<ReviewAngle>, String>)
    requires
        config_values.review_angles matches Some(configs) ==> configs@.len() == loaded@.len(),
    ensures
        angles_result(r) == review_angles(
            config_values@.review_angles,
            loaded_source_views(loaded@),
            general@,
            adversarial@,
        ),
{
    match &config_values.review_angles {
        None => Ok(builtin_review_angles(general, adversarial)),
        Some(configs) => {
            proof {
                assert(angle_config_views(configs@).len() == configs@.len());
            }
            if configs.len() == 0 {
                return Err("review_angles must include at least one angle".to_owned());
            }
            match check_review_angle_ids(configs) {
                Err(e) => Err(e),
                Ok(_) => resolve_all(configs, loaded),
            }
        },
    }
}

/// No two angles of a review that is configured have one identifier.
pub proof fn law_configured_ids_are_distinct(configs: Seq<AngleConfigView>)
    ensures
        distinct_ids(configs) matches Ok(ids) ==> ids.no_duplicates() && ids.len()
            == configs.len(),
    decreases configs.len(),
{
    if configs.len() > 0 {
        law_configured_ids_are_distinct(configs.drop_last());
        match distinct_ids(configs.drop_last()) {
            Ok(seen) => match angle_id(configs.last().id) {
                Ok(id) => if !seen.contains(id) {
                    let all = seen.push(id);
                    assert forall|i: int, j: int| 0 <= i < j < all.len() implies all[i]
                        != all[j] by {
                        if j == seen.len() {
                            assert(seen.contains(seen[i]));
                        }
                    }
                },
                Err(_) => {},
            },
            Err(_) => {},
        }
    }
}

// ---------------------------------------------------------------------------
// What holds of it
// ---------------------------------------------------------------------------

/// An angle is named by letters, digits, underscores and hyphens, with space around them
/// taken off.
pub proof fn law_angle_names(value: Seq<char>)
    ensures
        angle_id(value) is Ok <==> !blank(value) && forall|i: int|
            0 <= i < trimmed(value).len() ==> ('0' <= #[trigger] trimmed(value)[i] <= '9' || 'a'
                <= trimmed(value)[i] <= 'z' || 'A' <= trimmed(value)[i] <= 'Z' || trimmed(value)[i]
                == '_' || trimmed(value)[i] == '-'),
        angle_id(value) matches Ok(id) ==> id == trimmed(value),
{
    let id = trimmed(value);
    if all_angle_id_chars(id) {
        assert forall|i: int| 0 <= i < id.len() implies ('0' <= #[trigger] id[i] <= '9' || 'a'
            <= id[i] <= 'z' || 'A' <= id[i] <= 'Z' || id[i] == '_' || id[i] == '-') by {
            assert(angle_id_char(id[i]));
        }
    }
}

/// A file that is configured has to be in the repository, and is shown with slashes.
pub proof fn law_configured_paths(angle: Seq<char>, field: Seq<char>, value: Seq<char>)
    ensures
        config_path(angle, field, value) is Ok <==> safe_relative(trimmed(value)),
        config_path(angle, field, value) matches Ok((path, shown)) ==> path == trimmed(value)
            && shown == displayed_path(path),
        displayed_path(value).len() == value.len() && forall|i: int|
            0 <= i < value.len() ==> (#[trigger] displayed_path(value)[i] == if value[i] == '\\' {
                '/'
            } else {
                value[i]
            }),
{
}

/// The file of a skill: below a directory, the file itself where it is one, and otherwise by
/// its name.
pub proof fn law_skill_files(relative: Seq<char>, place: SkillPlace)
    ensures
        place.is_directory ==> skill_file(relative, place) == in_repository(
            relative,
            "SKILL.md"@,
        ),
        !place.is_directory && place.is_file ==> skill_file(relative, place) == relative,
        !place.is_directory && !place.is_file && place.has_skill_file ==> skill_file(
            relative,
            place,
        ) == in_repository(relative, "SKILL.md"@),
        !place.is_directory && !place.is_file && !place.has_skill_file && file_name_of(relative)
            == Some("SKILL.md"@) ==> skill_file(relative, place) == relative,
{
}

/// Instructions are what was read, cut to what fits; whatever is no text of the repository
/// is an error.
pub proof fn law_loaded_instructions(loaded: LoadedView, label: Seq<char>)
    ensures
        loaded matches LoadedView::Text { text } ==> loaded_instructions(loaded, label) == Ok::<
            Seq<char>,
            Seq<char>,
        >(truncated_contents(text, 80000)),
        !(loaded is Text) ==> loaded_instructions(loaded, label) is Err,
        loaded matches LoadedView::Failed { error } ==> loaded_instructions(loaded, label) == Err::<
            Seq<char>,
            Seq<char>,
        >(error),
{
}

/// A text that is too long is cut and marked, and any other is as it is.
pub proof fn law_cut_texts_are_marked(contents: Seq<char>, max: nat)
    requires
        max < usize::MAX,
    ensures
        utf8_len(contents) > max ==> "\n[truncated]\n"@.is_suffix_of(
            truncated_contents(contents, max),
        ) && fitting(contents, max).is_prefix_of(truncated_contents(contents, max)),
        utf8_len(contents) <= max ==> truncated_contents(contents, max) == contents,
{
    if utf8_len(contents) > max {
        let all = truncated_contents(contents, max);
        let end = "\n[truncated]\n"@;
        let head = fitting(contents, max);
        assert(all.subrange(all.len() - end.len(), all.len() as int) =~= end);
        assert(all.take(head.len() as int) =~= head);
    }
}

/// An angle has exactly one source of instructions, which decides what it is asked; its name
/// and its reason are those that are configured, where they are.
pub proof fn law_angles_have_one_source(config: AngleConfigView, loaded: LoadedSourceView)
    ensures
        config.prompt is Some && (config.prompt_file is Some || config.skill is Some)
            ==> resolved_angle(config, loaded) is Err,
        config.prompt_file is Some && config.skill is Some ==> resolved_angle(config, loaded)
            is Err,
        config.prompt is None && config.prompt_file is None && config.skill is None
            ==> resolved_angle(config, loaded) is Err,
        angle_id(config.id) is Err ==> resolved_angle(config, loaded) is Err,
        resolved_angle(config, loaded) matches Ok(angle) ==> {
            &&& angle.id == trimmed(config.id)
            &&& config.name matches Some(name) ==> angle.name == name
            &&& config.name is None ==> angle.name == humanized(angle.id)
            &&& config.reason matches Some(reason) ==> !blank(reason) ==> angle.reason == reason
            &&& config.prompt matches Some(prompt) ==> angle.instructions == prompt && angle.source
                == SourceView::InlinePrompt
            &&& config.prompt_file matches Some(file) ==> angle.source == (SourceView::PromptFile {
                path: displayed_path(trimmed(file)),
            }) && (loaded.text matches LoadedView::Text { text } && angle.instructions
                == truncated_contents(text, 80000))
            &&& config.skill is Some ==> angle.source is Skill && (
            loaded.text matches LoadedView::Text { text } && angle.instructions
                == truncated_contents(text, 80000))
        },
        config.prompt is Some && config.prompt_file is None && config.skill is None && angle_id(
            config.id,
        ) is Ok ==> resolved_angle(config, loaded) is Ok,
{
}

/// Angles are resolved one by one, in their order; without a list of them the two that are
/// built in are taken, and an empty list is an error.
pub proof fn law_angles_are_resolved_one_by_one(
    configs: Seq<AngleConfigView>,
    loaded: Seq<LoadedSourceView>,
    general: Seq<char>,
    adversarial: Seq<char>,
)
    requires
        configs.len() == loaded.len(),
    ensures
        review_angles(None, loaded, general, adversarial) matches Ok(angles) && angles.len() == 2
            && angles[0].id == "general"@ && angles[0].instructions == general && angles[1].id
            == "adversarial"@ && angles[1].instructions == adversarial,
        configs.len() == 0 ==> review_angles(Some(configs), loaded, general, adversarial) is Err,
        resolved_all(configs, loaded) matches Ok(angles) ==> angles.len() == configs.len()
            && forall|i: int|
            #![trigger angles[i]]
            0 <= i < angles.len() ==> resolved_angle(configs[i], loaded[i]) == Ok::<
                AngleView,
                Seq<char>,
            >(angles[i]),
        configs.len() > 0 && distinct_ids(configs) is Ok ==> review_angles(
            Some(configs),
            loaded,
            general,
            adversarial,
        ) == resolved_all(configs, loaded),
        distinct_ids(configs) is Err && configs.len() > 0 ==> review_angles(
            Some(configs),
            loaded,
            general,
            adversarial,
        ) is Err,
{
    lemma_resolved_one_by_one(configs, loaded);
}

proof fn lemma_resolved_one_by_one(configs: Seq<AngleConfigView>, loaded: Seq<LoadedSourceView>)
    ensures
        resolved_all(configs, loaded) matches Ok(angles) ==> angles.len() == configs.len()
            && forall|i: int|
            #![trigger angles[i]]
            0 <= i < angles.len() ==> resolved_angle(configs[i], loaded[i]) == Ok::<
                AngleView,
                Seq<char>,
            >(angles[i]),
    decreases configs.len(),
{
    if configs.len() > 0 {
        lemma_resolved_one_by_one(configs.drop_last(), loaded);
        if let Ok(angles) = resolved_all(configs, loaded) {
            let rest = resolved_all(configs.drop_last(), loaded)->Ok_0;
            assert forall|i: int| #![trigger angles[i]] 0 <= i < angles.len() implies
                resolved_angle(configs[i], loaded[i]) == Ok::<AngleView, Seq<char>>(angles[i]) by {
                if i < rest.len() {
                    assert(angles[i] == rest[i]);
                    assert(configs.drop_last()[i] == configs[i]);
                }
            }
        }
    }
}

/// Two angles of one name are refused, whatever space stands around it.
pub proof fn law_angles_are_named_once(configs: Seq<AngleConfigView>, i: int, j: int)
    requires
        0 <= i < j < configs.len(),
        trimmed(configs[i].id) == trimmed(configs[j].id),
    ensures
        distinct_ids(configs) is Err,
    decreases configs.len(),
{
    let rest = configs.drop_last();
    if j < configs.len() - 1 {
        assert(rest[i] == configs[i] && rest[j] == configs[j]);
        law_angles_are_named_once(rest, i, j);
    } else if distinct_ids(rest) is Ok {
        lemma_seen_ids(rest, i);
        assert(rest[i] == configs[i]);
    }
}

proof fn lemma_seen_ids(configs: Seq<AngleConfigView>, i: int)
    requires
        0 <= i < configs.len(),
        distinct_ids(configs) is Ok,
    ensures
        distinct_ids(configs)->Ok_0.contains(trimmed(configs[i].id)),
    decreases configs.len(),
{
    let all = distinct_ids(configs)->Ok_0;
    let rest = distinct_ids(configs.drop_last())->Ok_0;
    if i == configs.len() - 1 {
        assert(all[all.len() - 1] == trimmed(configs[i].id));
    } else {
        assert(configs.drop_last()[i] == configs[i]);
        lemma_seen_ids(configs.drop_last(), i);
        let k = choose|k: int| 0 <= k < rest.len() && rest[k] == trimmed(configs[i].id);
        assert(all[k] == trimmed(configs[i].id));
    }
}

/// The name of an angle is made of the words of its identifier, each with a large letter in
/// front.
pub proof fn law_names_are_capitalized(word: Seq<char>)
    requires
        word.len() > 0,
    ensures
        capitalized(word).len() == word.len(),
        'a' <= word[0] <= 'z' ==> capitalized(word)[0] as u32 + 32 == word[0] as u32,
        !('a' <= word[0] <= 'z') ==> capitalized(word) == word,
        forall|i: int| 1 <= i < word.len() ==> #[trigger] capitalized(word)[i] == word[i],
        (forall|i: int| 0 <= i < word.len() ==> #[trigger] word[i] != '_' && word[i] != '-')
            ==> humanized(word) == capitalized(word),
{
    if !('a' <= word[0] <= 'z') {
        assert(capitalized(word) =~= word);
    }
    if forall|i: int| 0 <= i < word.len() ==> #[trigger] word[i] != '_' && word[i] != '-' {
        crate::angles::law_runs(WordKind::NamePart, word, '_', Seq::empty());
        let words = runs_from(word, WordKind::NamePart, 0).map_values(
            |w: Seq<char>| capitalized(w),
        );
        assert(words =~= seq![capitalized(word)]);
    }
}

} // verus!
