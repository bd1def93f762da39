//! The configuration of a repository.
use vstd::prelude::*;

use crate::findings::{severity_named, Severity};
use crate::reading::result_view;
use crate::split::{blank, is_blank, lines, lines_of, trim, trimmed};
use crate::text::{chars_of, concat2, concat3, opt_view, same_text, text_of, views};
use crate::yaml::{
    key_value, leading_from, leading_whitespace_count, parse_yaml_key_value, parse_yaml_scalar,
    scalar, strip_yaml_comment, uncommented,
};

verus! {

/// An angle as it is configured.
#[derive(Debug, PartialEq, Eq)]
pub struct ReviewAngleConfig {
    pub id: String,
    pub name: Option<String>,
    pub reason: Option<String>,
    pub prompt: Option<String>,
    pub prompt_file: Option<String>,
    pub skill: Option<String>,
}

/// An angle as it is configured.
pub struct AngleConfigView {
    pub id: Seq<char>,
    pub name: Option<Seq<char>>,
    pub reason: Option<Seq<char>>,
    pub prompt: Option<Seq<char>>,
    pub prompt_file: Option<Seq<char>>,
    pub skill: Option<Seq<char>>,
}

impl View for ReviewAngleConfig {
    type V = AngleConfigView;

    open spec fn view(&self) -> AngleConfigView {
        AngleConfigView {
            id: self.id@,
            name: opt_view(self.name),
            reason: opt_view(self.reason),
            prompt: opt_view(self.prompt),
            prompt_file: opt_view(self.prompt_file),
            skill: opt_view(self.skill),
        }
    }
}

/// What angles are configured as.
pub open spec fn angle_config_views(s: Seq<ReviewAngleConfig>) -> Seq<AngleConfigView> {
    s.map_values(|c: ReviewAngleConfig| c@)
}

/// What angles that there may be are configured as.
pub open spec fn opt_config_views(s: Option<Vec<ReviewAngleConfig>>) -> Option<
    Seq<AngleConfigView>,
> {
    match s {
        Some(v) => Some(angle_config_views(v@)),
        None => None,
    }
}

// ---------------------------------------------------------------------------
// Fields of an angle
// ---------------------------------------------------------------------------

/// The fields that an entry sets, in order.
pub open spec fn pair_views(s: Seq<(String, String)>) -> Seq<(Seq<char>, Seq<char>)> {
    s.map_values(|p: (String, String)| (p.0@, p.1@))
}

/// The fields that there may be.
pub open spec fn opt_pair_views(s: Option<Vec<(String, String)>>) -> Option<
    Seq<(Seq<char>, Seq<char>)>,
> {
    match s {
        Some(v) => Some(pair_views(v@)),
        None => None,
    }
}

/// The last value that a field is set to.
pub open spec fn field_value(fields: Seq<(Seq<char>, Seq<char>)>, key: Seq<char>) -> Option<
    Seq<char>,
>
    decreases fields.len(),
{
    if fields.len() == 0 {
        None
    } else if fields.last().0 == key {
        Some(fields.last().1)
    } else {
        field_value(fields.drop_last(), key)
    }
}

/// A value without the space around it, where anything is left.
pub open spec fn config_value(value: Option<Seq<char>>) -> Option<Seq<char>> {
    match value {
        Some(v) => if trimmed(v).len() == 0 {
            None
        } else {
            Some(trimmed(v))
        },
        None => None,
    }
}

/// One value, or the other where the one is missing.
pub open spec fn either(first: Option<Seq<char>>, second: Option<Seq<char>>) -> Option<Seq<char>> {
    if first is Some {
        first
    } else {
        second
    }
}

/// The angle that the fields of an entry configure.
pub open spec fn config_of(fields: Seq<(Seq<char>, Seq<char>)>) -> AngleConfigView {
    AngleConfigView {
        id: match field_value(fields, "id"@) {
            Some(id) => id,
            None => Seq::empty(),
        },
        name: config_value(field_value(fields, "name"@)),
        reason: config_value(field_value(fields, "reason"@)),
        prompt: config_value(field_value(fields, "prompt"@)),
        prompt_file: config_value(
            either(field_value(fields, "prompt_file"@), field_value(fields, "prompt_path"@)),
        ),
        skill: config_value(
            either(
                field_value(fields, "skill"@),
                either(field_value(fields, "skill_path"@), field_value(fields, "skill_file"@)),
            ),
        ),
    }
}

/// The angles with the one that an entry configures, if it sets anything.
pub open spec fn with_config(
    configs: Seq<AngleConfigView>,
    fields: Option<Seq<(Seq<char>, Seq<char>)>>,
) -> Seq<AngleConfigView> {
    match fields {
        Some(f) => if f.len() == 0 {
            configs
        } else {
            configs.push(config_of(f))
        },
        None => configs,
    }
}

/// The view of an optional reference to a text.
pub open spec fn opt_ref_view(value: Option<&String>) -> Option<Seq<char>> {
    match value {
        Some(v) => Some(v@),
        None => None,
    }
}

fn value_of<'a>(fields: &'a Vec<(String, String)>, key: &str) -> (r: Option<&'a String>)
    ensures
        opt_ref_view(r) == field_value(pair_views(fields@), key@),
{
    let ghost all = pair_views(fields@);
    let mut i: usize = fields.len();
    proof {
        assert(all.take(i as int) =~= all);
    }
    while i > 0
        invariant
            i <= fields@.len(),
            all == pair_views(fields@),
            field_value(all, key@) == field_value(all.take(i as int), key@),
        decreases i,
    {
        proof {
            assert(all.take(i as int).drop_last() =~= all.take(i - 1));
            assert(all.take(i as int).last() == all[i - 1]);
            assert(all[i - 1] == (fields@[i - 1].0@, fields@[i - 1].1@));
        }
        if same_text(fields[i - 1].0.as_str(), key) {
            return Some(&fields[i - 1].1);
        }
        i -= 1;
    }
    None
}

/// A value without the space around it, where anything is left.
pub fn non_empty_config_value(value: Option<&String>) -> (r: Option<String>)
    ensures
        opt_view(r) == config_value(opt_ref_view(value)),
{
    match value {
        Some(v) => {
            let v = trim(v.as_str());
            if v.as_str().is_empty() {
                None
            } else {
                Some(v)
            }
        },
        None => None,
    }
}

fn first_of<'a>(first: Option<&'a String>, second: Option<&'a String>) -> (r: Option<&'a String>)
    ensures
        opt_ref_view(r) == either(opt_ref_view(first), opt_ref_view(second)),
{
    if first.is_some() {
        first
    } else {
        second
    }
}

/// Adds the angle that an entry configures, if it sets anything.
pub fn push_review_angle_config(
    configs: &mut Vec<ReviewAngleConfig>,
    fields: Option<Vec<(String, String)>>,
)
    ensures
        angle_config_views(final(configs)@) == with_config(
            angle_config_views(old(configs)@),
            opt_pair_views(fields),
        ),
{
    let ghost before = angle_config_views(configs@);
    let fields = match fields {
        Some(fields) => fields,
        None => {
            return;
        },
    };
    proof {
        assert(pair_views(fields@).len() == fields@.len());
    }
    if fields.len() == 0 {
        return;
    }
    let id = match value_of(&fields, "id") {
        Some(id) => id.clone(),
        None => String::new(),
    };
    let prompt_file = first_of(
        value_of(&fields, "prompt_file"),
        value_of(&fields, "prompt_path"),
    );
    let skill = first_of(
        value_of(&fields, "skill"),
        first_of(value_of(&fields, "skill_path"), value_of(&fields, "skill_file")),
    );
    let config = ReviewAngleConfig {
        id,
        name: non_empty_config_value(value_of(&fields, "name")),
        reason: non_empty_config_value(value_of(&fields, "reason")),
        prompt: non_empty_config_value(value_of(&fields, "prompt")),
        prompt_file: non_empty_config_value(prompt_file),
        skill: non_empty_config_value(skill),
    };
    configs.push(config);
    proof {
        assert(config@ == config_of(pair_views(fields@)));
        assert(angle_config_views(configs@) =~= before.push(config@));
    }
}

/// The fields that an entry may set.
pub open spec fn known_field(key: Seq<char>) -> bool {
    key == "id"@ || key == "name"@ || key == "reason"@ || key == "prompt"@ || key
        == "prompt_file"@ || key == "prompt_path"@ || key == "skill"@ || key == "skill_path"@
        || key == "skill_file"@
}

fn is_known_field(key: &str) -> (r: bool)
    ensures
        r == known_field(key@),
{
    same_text(key, "id") || same_text(key, "name") || same_text(key, "reason") || same_text(
        key,
        "prompt",
    ) || same_text(key, "prompt_file") || same_text(key, "prompt_path") || same_text(
        key,
        "skill",
    ) || same_text(key, "skill_path") || same_text(key, "skill_file")
}

/// The fields of an entry with what one more line sets. Fields that are not known are
/// passed over.
pub open spec fn with_field(fields: Option<Seq<(Seq<char>, Seq<char>)>>, line: Seq<char>) -> Result<
    Seq<(Seq<char>, Seq<char>)>,
    Seq<char>,
> {
    match fields {
        None => Err("review_angles entries must start with `-`"@),
        Some(f) => match key_value(line) {
            None => Err("invalid review angle config line `"@ + line + "`"@),
            Some((key, value)) => match scalar(value) {
                Err(e) => Err(e),
                Ok(v) => if known_field(key) {
                    Ok(f.push((key, v)))
                } else {
                    Ok(f)
                },
            },
        },
    }
}

/// The view of fields or of what is wrong with them.
pub open spec fn fields_result(r: Result<Vec<(String, String)>, String>) -> Result<
    Seq<(Seq<char>, Seq<char>)>,
    Seq<char>,
> {
    match r {
        Ok(v) => Ok(pair_views(v@)),
        Err(e) => Err(e@),
    }
}

/// The fields of an entry with what one more line sets.
pub fn apply_review_angle_config_field(
    current: Option<Vec<(String, String)>>,
    line: &str,
) -> (r: Result<Vec<(String, String)>, String>)
    ensures
        fields_result(r) == with_field(opt_pair_views(current), line@),
{
    let mut fields = match current {
        Some(fields) => fields,
        None => {
            return Err("review_angles entries must start with `-`".to_owned());
        },
    };
    let (key, value) = match parse_yaml_key_value(line) {
        Some(pair) => pair,
        None => {
            return Err(concat3("invalid review angle config line `", line, "`"));
        },
    };
    let value = match parse_yaml_scalar(value.as_str()) {
        Ok(value) => value,
        Err(e) => {
            return Err(e);
        },
    };
    if is_known_field(key.as_str()) {
        let ghost before = pair_views(fields@);
        let ghost added = (key@, value@);
        fields.push((key, value));
        proof {
            assert(pair_views(fields@) =~= before.push(added));
        }
    }
    Ok(fields)
}

// ---------------------------------------------------------------------------
// Angles
// ---------------------------------------------------------------------------

/// Where the reading of angles is.
struct AngleReader {
    saw: bool,
    inside: bool,
    indent: usize,
    current: Option<Vec<(String, String)>>,
    configs: Vec<ReviewAngleConfig>,
}

/// Where the reading of angles is.
pub struct AngleReaderView {
    /// The list of angles was seen.
    pub saw: bool,
    /// The lines are of the list.
    pub inside: bool,
    /// How far the list is indented.
    pub indent: nat,
    /// The fields of the entry that the lines are of.
    pub current: Option<Seq<(Seq<char>, Seq<char>)>>,
    /// The entries before it.
    pub configs: Seq<AngleConfigView>,
}

impl View for AngleReader {
    type V = AngleReaderView;

    closed spec fn view(&self) -> AngleReaderView {
        AngleReaderView {
            saw: self.saw,
            inside: self.inside,
            indent: self.indent as nat,
            current: opt_pair_views(self.current),
            configs: angle_config_views(self.configs@),
        }
    }
}

/// The reading with the entry closed that the lines were of.
pub open spec fn entry_closed(s: AngleReaderView) -> AngleReaderView {
    AngleReaderView { configs: with_config(s.configs, s.current), current: None, ..s }
}

/// The reading behind a line inside the list.
pub open spec fn list_line(s: AngleReaderView, line: Seq<char>) -> Result<
    AngleReaderView,
    Seq<char>,
> {
    if line[0] == '-' {
        let opened = AngleReaderView { current: Some(Seq::empty()), ..entry_closed(s) };
        let rest = trimmed(line.skip(1));
        if rest.len() == 0 {
            Ok(opened)
        } else {
            match with_field(opened.current, rest) {
                Ok(fields) => Ok(AngleReaderView { current: Some(fields), ..opened }),
                Err(e) => Err(e),
            }
        }
    } else {
        match with_field(s.current, line) {
            Ok(fields) => Ok(AngleReaderView { current: Some(fields), ..s }),
            Err(e) => Err(e),
        }
    }
}

/// The reading behind a line outside the list.
pub open spec fn outer_line(s: AngleReaderView, line: Seq<char>, indent: nat) -> Result<
    AngleReaderView,
    Seq<char>,
> {
    match key_value(line) {
        Some((key, value)) => if key == "review_angles"@ {
            match scalar(value) {
                Err(e) => Err(e),
                Ok(v) => if v == "[]"@ {
                    Ok(AngleReaderView { saw: true, ..s })
                } else if v.len() > 0 {
                    Err("review_angles must be a YAML list"@)
                } else {
                    Ok(AngleReaderView { saw: true, inside: true, indent, ..s })
                },
            }
        } else {
            Ok(s)
        },
        None => Ok(s),
    }
}

/// The reading behind a line.
pub open spec fn angle_line(s: AngleReaderView, raw: Seq<char>) -> Result<
    AngleReaderView,
    Seq<char>,
> {
    let content = uncommented(raw);
    let line = trimmed(content);
    let indent = leading_from(content, 0);
    if line.len() == 0 {
        Ok(s)
    } else if s.inside && (indent > s.indent || line[0] == '-') {
        list_line(s, line)
    } else if s.inside {
        outer_line(AngleReaderView { inside: false, ..entry_closed(s) }, line, indent)
    } else {
        outer_line(s, line, indent)
    }
}

/// The reading behind lines.
pub open spec fn angle_lines(lines: Seq<Seq<char>>) -> Result<AngleReaderView, Seq<char>>
    decreases lines.len(),
{
    if lines.len() == 0 {
        Ok(
            AngleReaderView {
                saw: false,
                inside: false,
                indent: 0,
                current: None,
                configs: Seq::empty(),
            },
        )
    } else {
        match angle_lines(lines.drop_last()) {
            Ok(s) => angle_line(s, lines.last()),
            Err(e) => Err(e),
        }
    }
}

/// The angles that a configuration lists, or none where it has no list.
pub open spec fn configured_angles(raw: Seq<char>) -> Result<
    Option<Seq<AngleConfigView>>,
    Seq<char>,
> {
    match angle_lines(lines_of(raw)) {
        Err(e) => Err(e),
        Ok(s) => if !s.saw {
            Ok(None)
        } else if s.inside {
            Ok(Some(with_config(s.configs, s.current)))
        } else {
            Ok(Some(s.configs))
        },
    }
}

proof fn lemma_failed_lines(lines: Seq<Seq<char>>, n: int)
    requires
        0 <= n <= lines.len(),
        angle_lines(lines.take(n)) is Err,
    ensures
        angle_lines(lines) == angle_lines(lines.take(n)),
    decreases lines.len() - n,
{
    if n == lines.len() {
        assert(lines.take(n) =~= lines);
    } else {
        assert(lines.take(n + 1).drop_last() =~= lines.take(n));
        lemma_failed_lines(lines, n + 1);
    }
}

fn close_entry(s: AngleReader) -> (r: AngleReader)
    ensures
        r@ == entry_closed(s@),
{
    let mut configs = s.configs;
    push_review_angle_config(&mut configs, s.current);
    AngleReader { saw: s.saw, inside: s.inside, indent: s.indent, current: None, configs }
}

fn read_list_line(s: AngleReader, line: &str) -> (r: Result<AngleReader, String>)
    requires
        line@.len() > 0,
    ensures
        result_view(r) == list_line(s@, line@),
{
    let v = chars_of(line);
    if v[0] == '-' {
        let mut opened = close_entry(s);
        let fields: Vec<(String, String)> = Vec::new();
        proof {
            assert(pair_views(fields@) =~= Seq::empty());
        }
        let rest = text_of(&v, 1, v.len());
        proof {
            assert(rest@ =~= line@.skip(1));
        }
        let rest = trim(rest.as_str());
        if rest.as_str().is_empty() {
            opened.current = Some(fields);
            return Ok(opened);
        }
        match apply_review_angle_config_field(Some(fields), rest.as_str()) {
            Ok(fields) => {
                opened.current = Some(fields);
                Ok(opened)
            },
            Err(e) => Err(e),
        }
    } else {
        match apply_review_angle_config_field(s.current, line) {
            Ok(fields) => Ok(
                AngleReader {
                    saw: s.saw,
                    inside: s.inside,
                    indent: s.indent,
                    current: Some(fields),
                    configs: s.configs,
                },
            ),
            Err(e) => Err(e),
        }
    }
}

fn read_outer_line(s: AngleReader, line: &str, indent: usize) -> (r: Result<AngleReader, String>)
    ensures
        result_view(r) == outer_line(s@, line@, indent as nat),
{
    let mut s = s;
    let (key, value) = match parse_yaml_key_value(line) {
        Some(pair) => pair,
        None => {
            return Ok(s);
        },
    };
    if !same_text(key.as_str(), "review_angles") {
        return Ok(s);
    }
    let value = match parse_yaml_scalar(value.as_str()) {
        Ok(value) => value,
        Err(e) => {
            return Err(e);
        },
    };
    if same_text(value.as_str(), "[]") {
        s.saw = true;
        return Ok(s);
    }
    if !value.as_str().is_empty() {
        return Err("review_angles must be a YAML list".to_owned());
    }
    s.saw = true;
    s.inside = true;
    s.indent = indent;
    Ok(s)
}

fn read_angle_line(s: AngleReader, raw: &str) -> (r: Result<AngleReader, String>)
    ensures
        result_view(r) == angle_line(s@, raw@),
{
    let content = strip_yaml_comment(raw);
    let line = trim(content.as_str());
    if line.as_str().is_empty() {
        return Ok(s);
    }
    let indent: usize = leading_whitespace_count(content.as_str());
    let v = chars_of(line.as_str());
    if s.inside && (indent > s.indent || v[0] == '-') {
        read_list_line(s, line.as_str())
    } else if s.inside {
        let mut closed = close_entry(s);
        closed.inside = false;
        read_outer_line(closed, line.as_str(), indent)
    } else {
        read_outer_line(s, line.as_str(), indent)
    }
}

/// The angles or what is wrong with them.
pub open spec fn configs_result(r: Result<Option<Vec<ReviewAngleConfig>>, String>) -> Result<
    Option<Seq<AngleConfigView>>,
    Seq<char>,
> {
    match r {
        Ok(v) => Ok(opt_config_views(v)),
        Err(e) => Err(e@),
    }
}

/// The angles that a configuration lists, or none where it has no list.
pub fn parse_review_angle_configs(raw: &str) -> (r: Result<
    Option<Vec<ReviewAngleConfig>>,
    String,
>)
    ensures
        configs_result(r) == configured_angles(raw@),
{
    let all = lines(raw);
    let ghost seen = views(all@);
    let mut s = AngleReader {
        saw: false,
        inside: false,
        indent: 0,
        current: None,
        configs: Vec::new(),
    };
    let mut i: usize = 0;
    proof {
        assert(s@.configs =~= Seq::empty());
    }
    while i < all.len()
        invariant
            i <= all@.len(),
            seen == views(all@),
            seen == lines_of(raw@),
            angle_lines(seen.take(i as int)) == Ok::<AngleReaderView, Seq<char>>(s@),
        decreases all@.len() - i,
    {
        proof {
            assert(seen.take(i + 1).drop_last() =~= seen.take(i as int));
            assert(seen.take(i + 1).last() == all@[i as int]@);
        }
        match read_angle_line(s, all[i].as_str()) {
            Ok(next) => {
                s = next;
            },
            Err(e) => {
                proof {
                    lemma_failed_lines(seen, i + 1);
                }
                return Err(e);
            },
        }
        i += 1;
    }
    proof {
        assert(seen.take(seen.len() as int) =~= seen);
    }
    let saw = s.saw;
    if !saw {
        return Ok(None);
    }
    if s.inside {
        let closed = close_entry(s);
        Ok(Some(closed.configs))
    } else {
        Ok(Some(s.configs))
    }
}

// ---------------------------------------------------------------------------
// Values
// ---------------------------------------------------------------------------

/// A key that is no longer read.
pub open spec fn removed_key(key: Seq<char>) -> bool {
    key == "fail_under"@ || key == "report_only"@ || key == "gate_mode"@ || key
        == "target_score"@ || key == "summary_min_severity"@ || key == "inline_min_severity"@
        || key == "inline_min_confidence"@ || key == "summary_style"@ || key
        == "publish_inline_comments"@
}

/// Whether a key is no longer read.
pub fn is_removed_config_key(key: &str) -> (r: bool)
    ensures
        r == removed_key(key@),
{
    same_text(key, "fail_under") || same_text(key, "report_only") || same_text(key, "gate_mode")
        || same_text(key, "target_score") || same_text(key, "summary_min_severity") || same_text(
        key,
        "inline_min_severity",
    ) || same_text(key, "inline_min_confidence") || same_text(key, "summary_style") || same_text(
        key,
        "publish_inline_comments",
    )
}

/// The severity that a value names.
pub open spec fn severity_in(value: Seq<char>, field: Seq<char>) -> Result<Severity, Seq<char>> {
    match severity_named(value) {
        Some(severity) => Ok(severity),
        None => Err(field + " must be one of P0, P1, P2, P3, P4"@),
    }
}

/// A value or what is wrong with it.
pub open spec fn plain_result<T>(r: Result<T, String>) -> Result<T, Seq<char>> {
    match r {
        Ok(v) => Ok(v),
        Err(e) => Err(e@),
    }
}

/// The severity that a value names.
pub fn parse_severity(value: &str, field: &str) -> (r: Result<Severity, String>)
    ensures
        plain_result(r) == severity_in(value@, field@),
{
    match Severity::parse(value) {
        Some(severity) => Ok(severity),
        None => Err(concat2(field, " must be one of P0, P1, P2, P3, P4")),
    }
}

/// What the lines of a configuration set, angles aside.
pub struct ConfigLines {
    pub min_severity: Option<Severity>,
    /// The keys that are no longer read.
    pub removed_keys: Seq<Seq<char>>,
}

/// What lines set with one more.
pub open spec fn config_line(s: ConfigLines, raw: Seq<char>) -> Result<ConfigLines, Seq<char>> {
    match key_value(trimmed(uncommented(raw))) {
        None => Ok(s),
        Some((key, value)) => match scalar(value) {
            Err(e) => Err(e),
            Ok(v) => if key == "min_severity"@ {
                match severity_in(v, "min_severity"@) {
                    Ok(severity) => Ok(ConfigLines { min_severity: Some(severity), ..s }),
                    Err(e) => Err(e),
                }
            } else if removed_key(key) {
                Ok(ConfigLines { removed_keys: s.removed_keys.push(key), ..s })
            } else {
                Ok(s)
            },
        },
    }
}

/// What lines set.
pub open spec fn config_lines(lines: Seq<Seq<char>>) -> Result<ConfigLines, Seq<char>>
    decreases lines.len(),
{
    if lines.len() == 0 {
        Ok(ConfigLines { min_severity: None, removed_keys: Seq::empty() })
    } else {
        match config_lines(lines.drop_last()) {
            Ok(s) => config_line(s, lines.last()),
            Err(e) => Err(e),
        }
    }
}

proof fn lemma_failed_config(lines: Seq<Seq<char>>, n: int)
    requires
        0 <= n <= lines.len(),
        config_lines(lines.take(n)) is Err,
    ensures
        config_lines(lines) == config_lines(lines.take(n)),
    decreases lines.len() - n,
{
    if n == lines.len() {
        assert(lines.take(n) =~= lines);
    } else {
        assert(lines.take(n + 1).drop_last() =~= lines.take(n));
        lemma_failed_config(lines, n + 1);
    }
}

/// What a configuration sets.
#[derive(Debug, PartialEq, Eq)]
pub struct ReviewConfigValues {
    pub min_severity: Option<Severity>,
    pub review_angles: Option<Vec<ReviewAngleConfig>>,
    /// The keys that are no longer read.
    pub removed_keys: Vec<String>,
}

/// What a configuration sets.
pub struct ConfigView {
    pub min_severity: Option<Severity>,
    pub review_angles: Option<Seq<AngleConfigView>>,
    pub removed_keys: Seq<Seq<char>>,
}

impl View for ReviewConfigValues {
    type V = ConfigView;

    open spec fn view(&self) -> ConfigView {
        ConfigView {
            min_severity: self.min_severity,
            review_angles: opt_config_views(self.review_angles),
            removed_keys: views(self.removed_keys@),
        }
    }
}

/// What a configuration sets.
pub open spec fn config_values(raw: Seq<char>) -> Result<ConfigView, Seq<char>> {
    match configured_angles(raw) {
        Err(e) => Err(e),
        Ok(review_angles) => match config_lines(lines_of(raw)) {
            Err(e) => Err(e),
            Ok(s) => Ok(
                ConfigView {
                    min_severity: s.min_severity,
                    review_angles,
                    removed_keys: s.removed_keys,
                },
            ),
        },
    }
}

/// What a configuration sets. Without a configuration, nothing is set: see `unset`.
pub fn read_config_values(raw: &str) -> (r: Result<ReviewConfigValues, String>)
    ensures
        result_view(r) == config_values(raw@),
{
    let review_angles = match parse_review_angle_configs(raw) {
        Ok(review_angles) => review_angles,
        Err(e) => {
            return Err(e);
        },
    };
    let all = lines(raw);
    let ghost seen = views(all@);
    let mut min_severity: Option<Severity> = None;
    let mut removed_keys: Vec<String> = Vec::new();
    let mut i: usize = 0;
    proof {
        assert(views(removed_keys@) =~= Seq::empty());
    }
    while i < all.len()
        invariant
            i <= all@.len(),
            seen == views(all@),
            seen == lines_of(raw@),
            configured_angles(raw@) is Ok,
            config_lines(seen.take(i as int)) == Ok::<ConfigLines, Seq<char>>(
                ConfigLines { min_severity, removed_keys: views(removed_keys@) },
            ),
        decreases all@.len() - i,
    {
        proof {
            assert(seen.take(i + 1).drop_last() =~= seen.take(i as int));
            assert(seen.take(i + 1).last() == all@[i as int]@);
        }
        match read_config_line(all[i].as_str(), &mut min_severity, &mut removed_keys) {
            Ok(_) => {},
            Err(e) => {
                proof {
                    lemma_failed_config(seen, i + 1);
                }
                return Err(e);
            },
        }
        i += 1;
    }
    proof {
        assert(seen.take(seen.len() as int) =~= seen);
    }
    Ok(ReviewConfigValues { min_severity, review_angles, removed_keys })
}

fn read_config_line(
    raw: &str,
    min_severity: &mut Option<Severity>,
    removed_keys: &mut Vec<String>,
) -> (r: Result<(), String>)
    ensures
        ({
            let before = ConfigLines {
                min_severity: *old(min_severity),
                removed_keys: views(old(removed_keys)@),
            };
            let after = ConfigLines {
                min_severity: *final(min_severity),
                removed_keys: views(final(removed_keys)@),
            };
            match config_line(before, raw@) {
                Ok(s) => r is Ok && after == s,
                Err(e) => r matches Err(m) && m@ == e,
            }
        }),
{
    let content = strip_yaml_comment(raw);
    let line = trim(content.as_str());
    let (key, value) = match parse_yaml_key_value(line.as_str()) {
        Some(pair) => pair,
        None => {
            return Ok(());
        },
    };
    let value = match parse_yaml_scalar(value.as_str()) {
        Ok(value) => value,
        Err(e) => {
            return Err(e);
        },
    };
    if same_text(key.as_str(), "min_severity") {
        match parse_severity(value.as_str(), "min_severity") {
            Ok(severity) => {
                *min_severity = Some(severity);
                Ok(())
            },
            Err(e) => Err(e),
        }
    } else if is_removed_config_key(key.as_str()) {
        let ghost before = views(removed_keys@);
        let ghost added = key@;
        removed_keys.push(key);
        proof {
            assert(views(removed_keys@) =~= before.push(added));
        }
        Ok(())
    } else {
        Ok(())
    }
}

impl ReviewConfigValues {
    /// A configuration that sets nothing.
    pub fn unset() -> (r: Self)
        ensures
            r@ == (ConfigView {
                min_severity: None,
                review_angles: None,
                removed_keys: Seq::empty(),
            }),
    {
        let r = ReviewConfigValues {
            min_severity: None,
            review_angles: None,
            removed_keys: Vec::new(),
        };
        proof {
            assert(r@.removed_keys =~= Seq::empty());
        }
        r
    }
}

/// The severity that a value names; none where there is no value or a blank one.
pub open spec fn optional_severity(value: Option<Seq<char>>, field: Seq<char>) -> Result<
    Option<Severity>,
    Seq<char>,
> {
    match value {
        Some(v) => if trimmed(v).len() == 0 {
            Ok(None)
        } else {
            match severity_in(v, field) {
                Ok(severity) => Ok(Some(severity)),
                Err(e) => Err(e),
            }
        },
        None => Ok(None),
    }
}

/// The view of an optional slice of text.
pub open spec fn opt_str_view(value: Option<&str>) -> Option<Seq<char>> {
    match value {
        Some(v) => Some(v@),
        None => None,
    }
}

/// The severity that a value names; none where there is no value or a blank one.
pub fn parse_optional_severity(value: Option<&str>, field: &str) -> (r: Result<
    Option<Severity>,
    String,
>)
    ensures
        plain_result(r) == optional_severity(opt_str_view(value), field@),
{
    match value {
        Some(v) => {
            if is_blank(v) {
                Ok(None)
            } else {
                match parse_severity(v, field) {
                    Ok(severity) => Ok(Some(severity)),
                    Err(e) => Err(e),
                }
            }
        },
        None => Ok(None),
    }
}

/// The least severity that is published: what was asked for, or else what is configured,
/// or else the least there is.
pub open spec fn min_severity_of(asked: Option<Seq<char>>, configured: Option<Severity>) -> Result<
    Severity,
    Seq<char>,
> {
    match optional_severity(asked, "min_severity"@) {
        Err(e) => Err(e),
        Ok(Some(severity)) => Ok(severity),
        Ok(None) => match configured {
            Some(severity) => Ok(severity),
            None => Ok(Severity::P4),
        },
    }
}

/// The least severity that is published.
pub fn resolve_min_severity(cli_value: Option<&str>, config_values: &ReviewConfigValues) -> (r:
    Result<Severity, String>)
    ensures
        plain_result(r) == min_severity_of(opt_str_view(cli_value), config_values@.min_severity),
{
    match parse_optional_severity(cli_value, "min_severity") {
        Err(e) => Err(e),
        Ok(Some(severity)) => Ok(severity),
        Ok(None) => match config_values.min_severity {
            Some(severity) => Ok(severity),
            None => Ok(Severity::P4),
        },
    }
}

// ---------------------------------------------------------------------------
// What holds of it
// ---------------------------------------------------------------------------

/// The value of a field is the one that was set last; a field that was not set has none.
pub proof fn law_the_last_field_stands(
    fields: Seq<(Seq<char>, Seq<char>)>,
    key: Seq<char>,
    value: Seq<char>,
    other: Seq<char>,
)
    ensures
        field_value(Seq::empty(), key) is None,
        field_value(fields.push((key, value)), key) == Some(value),
        other != key ==> field_value(fields.push((other, value)), key) == field_value(fields, key),
{
    assert(fields.push((key, value)).drop_last() =~= fields);
    assert(fields.push((other, value)).drop_last() =~= fields);
}

/// What an angle is configured to be: its fields, trimmed, where they are not blank, with
/// the first of their names that is set.
pub proof fn law_configured_fields(fields: Seq<(Seq<char>, Seq<char>)>)
    ensures
        ({
            let c = config_of(fields);
            &&& field_value(fields, "id"@) matches Some(id) ==> c.id == id
            &&& field_value(fields, "id"@) is None ==> c.id.len() == 0
            &&& field_value(fields, "name"@) matches Some(v) ==> !blank(v) ==> c.name == Some(
                trimmed(v),
            )
            &&& field_value(fields, "name"@) is None ==> c.name is None
            &&& field_value(fields, "reason"@) matches Some(v) ==> !blank(v) ==> c.reason == Some(
                trimmed(v),
            )
            &&& field_value(fields, "prompt"@) matches Some(v) ==> !blank(v) ==> c.prompt == Some(
                trimmed(v),
            )
            &&& field_value(fields, "prompt"@) is None ==> c.prompt is None
            &&& field_value(fields, "prompt_file"@) matches Some(v) ==> !blank(v)
                ==> c.prompt_file == Some(trimmed(v))
            &&& field_value(fields, "prompt_file"@) is None ==> (field_value(
                fields,
                "prompt_path"@,
            ) matches Some(v) ==> !blank(v) ==> c.prompt_file == Some(trimmed(v)))
            &&& field_value(fields, "skill"@) matches Some(v) ==> !blank(v) ==> c.skill == Some(
                trimmed(v),
            )
            &&& field_value(fields, "skill"@) is None ==> (field_value(
                fields,
                "skill_path"@,
            ) matches Some(v) ==> !blank(v) ==> c.skill == Some(trimmed(v)))
            &&& field_value(fields, "skill"@) is None && field_value(fields, "skill_path"@) is None
                ==> (field_value(fields, "skill_file"@) matches Some(v) ==> !blank(v) ==> c.skill
                == Some(trimmed(v)))
            &&& c.name matches Some(v) ==> !blank(v) || v.len() > 0
            &&& c.prompt matches Some(v) ==> v.len() > 0
            &&& c.prompt_file matches Some(v) ==> v.len() > 0
            &&& c.skill matches Some(v) ==> v.len() > 0
        }),
{
}

/// An entry of the list of angles is kept exactly if it has a field, behind those before
/// it.
pub proof fn law_entries_are_kept(
    configs: Seq<AngleConfigView>,
    fields: Seq<(Seq<char>, Seq<char>)>,
)
    ensures
        fields.len() > 0 ==> with_config(configs, Some(fields)) == configs.push(config_of(fields)),
        fields.len() == 0 ==> with_config(configs, Some(fields)) == configs,
        with_config(configs, None) == configs,
{
}

/// A line of an entry sets its key where that is known, and nothing where it is not; what
/// stands outside an entry or has no key is an error.
pub proof fn law_lines_set_fields(
    fields: Seq<(Seq<char>, Seq<char>)>,
    key: Seq<char>,
    value: Seq<char>,
)
    requires
        !key.contains(':'),
        trimmed(key) == key && key.len() > 0,
        trimmed(value).len() > 0 && trimmed(value)[0] != '|' && trimmed(value)[0] != '>'
            && trimmed(value)[0] != '"' && trimmed(value)[0] != '\'',
    ensures
        with_field(None, key + seq![':'] + value) is Err,
        with_field(Some(fields), key) is Err,
        key == "id"@ || key == "name"@ || key == "reason"@ || key == "prompt"@ || key
            == "prompt_file"@ || key == "prompt_path"@ || key == "skill"@ || key == "skill_path"@
            || key == "skill_file"@ ==> with_field(Some(fields), key + seq![':'] + value) == Ok::<
            Seq<(Seq<char>, Seq<char>)>,
            Seq<char>,
        >(fields.push((key, trimmed(value)))),
        !known_field(key) ==> with_field(Some(fields), key + seq![':'] + value) == Ok::<
            Seq<(Seq<char>, Seq<char>)>,
            Seq<char>,
        >(fields),
{
    crate::yaml::law_keys_and_values(key, value);
    lemma_trimmed_again(value);
    crate::yaml::law_scalars(value, trimmed(value));
}

proof fn lemma_trimmed_again(s: Seq<char>)
    ensures
        trimmed(trimmed(s)) == trimmed(s),
{
    crate::split::law_trimmed(s);
    let t = trimmed(s);
    if t.len() > 0 {
        assert(crate::split::trim_start_of(t) =~= t);
        assert(crate::split::trim_end_of(t) =~= t);
    } else {
        assert(trimmed(t) =~= t);
    }
}

/// A line that opens an entry closes the one before it and keeps that.
pub proof fn law_dashes_open_entries(s: AngleReaderView)
    ensures
        list_line(s, seq!['-']) matches Ok(after) && after.current == Some(
            Seq::<(Seq<char>, Seq<char>)>::empty(),
        ) && after.configs == with_config(s.configs, s.current) && after.inside == s.inside
            && after.saw == s.saw && after.indent == s.indent,
{
    assert(seq!['-'].skip(1) =~= Seq::empty());
    assert(trimmed(Seq::<char>::empty()) =~= Seq::<char>::empty());
}

/// Angles are configured exactly where the list of them is seen, and an empty list is a
/// list.
pub proof fn law_angles_are_configured_where_listed(s: AngleReaderView, indent: nat)
    requires
        !s.inside,
    ensures
        configured_angles(Seq::empty()) == Ok::<Option<Seq<AngleConfigView>>, Seq<char>>(None),
        outer_line(s, "review_angles"@ + seq![':'], indent) == Ok::<AngleReaderView, Seq<char>>(
            AngleReaderView { saw: true, inside: true, indent, ..s },
        ),
        outer_line(s, "review_angles"@ + seq![':'] + " []"@, indent) == Ok::<
            AngleReaderView,
            Seq<char>,
        >(AngleReaderView { saw: true, ..s }),
{
    let key = "review_angles"@;
    reveal_strlit("review_angles");
    reveal_strlit(" []");
    reveal_strlit("[]");
    assert(!key.contains(':')) by {
        if key.contains(':') {
            let j = choose|j: int| 0 <= j < key.len() && key[j] == ':';
        }
    }
    crate::yaml::law_keys_and_values(key, Seq::empty());
    crate::yaml::law_keys_and_values(key, " []"@);
    assert(key + seq![':'] + Seq::<char>::empty() =~= key + seq![':']);
    assert(crate::split::trim_start_of(key) =~= key);
    assert(crate::split::trim_end_of(key) =~= key);
    assert(trimmed(Seq::<char>::empty()) =~= Seq::<char>::empty());
    let v = " []"@;
    reveal_with_fuel(crate::split::skip_space, 3);
    reveal_with_fuel(crate::split::back_over_space, 3);
    assert(crate::split::trim_start_of(v) =~= "[]"@);
    assert(crate::split::trim_end_of("[]"@) =~= "[]"@);
    assert(crate::split::trim_start_of("[]"@) =~= "[]"@);
}

/// A severity that is asked for counts before one that is configured, and that before the
/// least; what is asked for and is none is an error.
pub proof fn law_asked_severities_count_first(asked: Seq<char>, configured: Option<Severity>)
    ensures
        severity_named(asked) matches Some(s) ==> !blank(asked) ==> min_severity_of(
            Some(asked),
            configured,
        ) == Ok::<Severity, Seq<char>>(s),
        severity_named(asked) is None && !blank(asked) ==> min_severity_of(
            Some(asked),
            configured,
        ) is Err,
        configured matches Some(s) ==> min_severity_of(None, configured) == Ok::<
            Severity,
            Seq<char>,
        >(s),
        configured matches Some(s) ==> blank(asked) ==> min_severity_of(Some(asked), configured)
            == Ok::<Severity, Seq<char>>(s),
        min_severity_of(None, None) == Ok::<Severity, Seq<char>>(Severity::P4),
{
}

/// Keys that are no longer read are told of in their order, and a severity that is
/// configured later stands; other keys change nothing.
pub proof fn law_config_lines(s: ConfigLines, key: Seq<char>, value: Seq<char>)
    requires
        ({
            let line = key + seq![':'] + value;
            trimmed(uncommented(line)) == line
        }),
        !key.contains(':'),
        trimmed(key) == key && key.len() > 0,
        trimmed(value).len() > 0 && trimmed(value)[0] != '|' && trimmed(value)[0] != '>'
            && trimmed(value)[0] != '"' && trimmed(value)[0] != '\'',
    ensures
        ({
            let after = config_line(s, key + seq![':'] + value);
            &&& key == "min_severity"@ ==> (severity_named(trimmed(value)) matches Some(severity)
                ==> after == Ok::<ConfigLines, Seq<char>>(
                ConfigLines { min_severity: Some(severity), ..s },
            ))
            &&& key == "min_severity"@ && severity_named(trimmed(value)) is None ==> after is Err
            &&& key == "fail_under"@ || key == "report_only"@ || key == "gate_mode"@ || key
                == "target_score"@ || key == "summary_min_severity"@ || key
                == "inline_min_severity"@ || key == "inline_min_confidence"@ || key
                == "summary_style"@ || key == "publish_inline_comments"@ ==> after == Ok::<
                ConfigLines,
                Seq<char>,
            >(ConfigLines { removed_keys: s.removed_keys.push(key), ..s }) || key
                == "min_severity"@
            &&& key != "min_severity"@ && !removed_key(key) ==> after == Ok::<
                ConfigLines,
                Seq<char>,
            >(s)
        }),
{
    crate::yaml::law_keys_and_values(key, value);
    lemma_trimmed_again(value);
    crate::yaml::law_scalars(value, trimmed(value));
}

/// Nothing is listed where there is no line, and a line goes on where the lines before it
/// ended; one that cannot be read ends the reading.
pub proof fn law_angles_are_read_line_by_line(lines: Seq<Seq<char>>, line: Seq<char>)
    ensures
        angle_lines(Seq::empty()) matches Ok(s) && !s.saw && !s.inside && s.current is None
            && s.configs.len() == 0,
        angle_lines(lines) matches Ok(s) ==> angle_lines(lines.push(line)) == angle_line(s, line),
        angle_lines(lines) matches Err(e) ==> angle_lines(lines.push(line)) == Err::<
            AngleReaderView,
            Seq<char>,
        >(e),
{
    assert(lines.push(line).drop_last() =~= lines);
}

} // verus!
