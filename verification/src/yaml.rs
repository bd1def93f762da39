//! Lines of the simple YAML that a configuration is written in.
use vstd::prelude::*;

use crate::reading::result_view;
use crate::split::{blank, opt_pair_view, split_once, split_once_at, trim, trimmed};
use crate::text::{chars_of, text_of};

verus! {

/// Where the comment of a line starts, looked for from `from` on, inside a quote or not,
/// behind a backslash or not; the length of the line where there is none.
pub open spec fn comment_from(s: Seq<char>, from: int, quote: Option<char>, escaped: bool) -> int
    decreases s.len() - from,
{
    if from < 0 || from >= s.len() {
        s.len() as int
    } else {
        match quote {
            Some(q) => if q == '"' && escaped {
                comment_from(s, from + 1, quote, false)
            } else if q == '"' && s[from] == '\\' {
                comment_from(s, from + 1, quote, true)
            } else if s[from] == q {
                comment_from(s, from + 1, None, escaped)
            } else {
                comment_from(s, from + 1, quote, escaped)
            },
            None => if s[from] == '"' || s[from] == '\'' {
                comment_from(s, from + 1, Some(s[from]), escaped)
            } else if s[from] == '#' {
                from
            } else {
                comment_from(s, from + 1, None, escaped)
            },
        }
    }
}

/// A line without its comment. A number sign inside quotes starts none.
pub open spec fn uncommented(line: Seq<char>) -> Seq<char> {
    line.take(comment_from(line, 0, None, false))
}

proof fn lemma_comment_bounds(s: Seq<char>, from: int, quote: Option<char>, escaped: bool)
    requires
        0 <= from <= s.len(),
    ensures
        from <= comment_from(s, from, quote, escaped) <= s.len(),
    decreases s.len() - from,
{
    if from < s.len() {
        match quote {
            Some(q) => if q == '"' && escaped {
                lemma_comment_bounds(s, from + 1, quote, false);
            } else if q == '"' && s[from] == '\\' {
                lemma_comment_bounds(s, from + 1, quote, true);
            } else if s[from] == q {
                lemma_comment_bounds(s, from + 1, None, escaped);
            } else {
                lemma_comment_bounds(s, from + 1, quote, escaped);
            },
            None => if s[from] == '"' || s[from] == '\'' {
                lemma_comment_bounds(s, from + 1, Some(s[from]), escaped);
            } else if s[from] != '#' {
                lemma_comment_bounds(s, from + 1, None, escaped);
            },
        }
    }
}

/// What is left of a line without its comment is a start of it, and a line without a
/// number sign is left alone.
pub proof fn law_uncommented(line: Seq<char>)
    ensures
        uncommented(line).is_prefix_of(line),
        !line.contains('#') ==> uncommented(line) == line,
{
    lemma_comment_bounds(line, 0, None, false);
    if !line.contains('#') {
        lemma_no_comment(line, 0, None, false);
        assert(line.take(line.len() as int) =~= line);
    }
}

proof fn lemma_no_comment(s: Seq<char>, from: int, quote: Option<char>, escaped: bool)
    requires
        0 <= from <= s.len(),
        !s.contains('#'),
    ensures
        comment_from(s, from, quote, escaped) == s.len(),
    decreases s.len() - from,
{
    if from < s.len() {
        assert(s.contains(s[from]));
        match quote {
            Some(q) => if q == '"' && escaped {
                lemma_no_comment(s, from + 1, quote, false);
            } else if q == '"' && s[from] == '\\' {
                lemma_no_comment(s, from + 1, quote, true);
            } else if s[from] == q {
                lemma_no_comment(s, from + 1, None, escaped);
            } else {
                lemma_no_comment(s, from + 1, quote, escaped);
            },
            None => if s[from] == '"' || s[from] == '\'' {
                lemma_no_comment(s, from + 1, Some(s[from]), escaped);
            } else {
                lemma_no_comment(s, from + 1, None, escaped);
            },
        }
    }
}

/// A line without its comment.
pub fn strip_yaml_comment(line: &str) -> (r: String)
    ensures
        r@ == uncommented(line@),
{
    let v = chars_of(line);
    let mut quote: Option<char> = None;
    let mut escaped = false;
    let mut i: usize = 0;
    while i < v.len()
        invariant
            i <= v@.len(),
            v@ == line@,
            comment_from(v@, 0, None, false) == comment_from(v@, i as int, quote, escaped),
        decreases v@.len() - i,
    {
        let c = v[i];
        match quote {
            Some(q) => {
                if q == '"' && escaped {
                    escaped = false;
                } else if q == '"' && c == '\\' {
                    escaped = true;
                } else if c == q {
                    quote = None;
                }
            },
            None => {
                if c == '"' || c == '\'' {
                    quote = Some(c);
                } else if c == '#' {
                    let r = text_of(&v, 0, i);
                    proof {
                        assert(r@ =~= uncommented(line@));
                    }
                    return r;
                }
            },
        }
        i += 1;
    }
    proof {
        assert(line@.take(line@.len() as int) =~= line@);
    }
    line.to_owned()
}

/// How many blanks and tabs a line has from `from` on, before anything else.
pub open spec fn leading_from(line: Seq<char>, from: int) -> nat
    decreases line.len() - from,
{
    if 0 <= from < line.len() && (line[from] == ' ' || line[from] == '\t') {
        1 + leading_from(line, from + 1)
    } else {
        0
    }
}

/// How many blanks and tabs a line starts with.
pub fn leading_whitespace_count(line: &str) -> (r: usize)
    ensures
        r == leading_from(line@, 0),
{
    let v = chars_of(line);
    let mut i: usize = 0;
    while i < v.len() && (v[i] == ' ' || v[i] == '\t')
        invariant
            i <= v@.len(),
            v@ == line@,
            leading_from(line@, 0) == i + leading_from(line@, i as int),
        decreases v@.len() - i,
    {
        i += 1;
    }
    i
}

/// The key and the value of a line.
pub open spec fn key_value(line: Seq<char>) -> Option<(Seq<char>, Seq<char>)> {
    match split_once_at(line, ':') {
        Some((key, value)) => if trimmed(key).len() == 0 {
            None
        } else {
            Some((trimmed(key), trimmed(value)))
        },
        None => None,
    }
}

/// The key and the value of a line.
pub fn parse_yaml_key_value(line: &str) -> (r: Option<(String, String)>)
    ensures
        opt_pair_view(r) == key_value(line@),
{
    match split_once(line, ':') {
        Some((key, value)) => {
            let key = trim(key.as_str());
            if key.as_str().is_empty() {
                None
            } else {
                Some((key, trim(value.as_str())))
            }
        },
        None => None,
    }
}

/// A value stands in quotes of this kind.
pub open spec fn in_quotes(value: Seq<char>, quote: char) -> bool {
    value.len() >= 2 && value[0] == quote && value.last() == quote
}

/// What a value says: what stands in its quotes, where it has some. A value that goes on
/// in the lines behind it is refused.
pub open spec fn scalar(value: Seq<char>) -> Result<Seq<char>, Seq<char>> {
    let v = trimmed(value);
    if v.len() > 0 && (v[0] == '|' || v[0] == '>') {
        Err("block scalar config values are not supported; use prompt_file for long prompts"@)
    } else if in_quotes(v, '"') || in_quotes(v, '\'') {
        Ok(v.subrange(1, v.len() - 1))
    } else {
        Ok(v)
    }
}

/// What a value says.
pub fn parse_yaml_scalar(value: &str) -> (r: Result<String, String>)
    ensures
        result_view(r) == scalar(value@),
{
    let value = trim(value);
    let v = chars_of(value.as_str());
    let n: usize = v.len();
    if n > 0 && (v[0] == '|' || v[0] == '>') {
        return Err(
            "block scalar config values are not supported; use prompt_file for long prompts".to_owned(),
        );
    }
    if n >= 2 && ((v[0] == '"' && v[n - 1] == '"') || (v[0] == '\'' && v[n - 1] == '\'')) {
        return Ok(text_of(&v, 1, n - 1));
    }
    Ok(value)
}

// ---------------------------------------------------------------------------
// What holds of it
// ---------------------------------------------------------------------------

/// A hash outside quotes starts a comment, whatever follows it; one inside quotes does not.
pub proof fn law_comments_start_outside_quotes(line: Seq<char>, comment: Seq<char>, quoted: Seq<char>)
    requires
        !line.contains('#') && !line.contains('"') && !line.contains('\''),
        !quoted.contains('"') && !quoted.contains('\\'),
    ensures
        uncommented(line + seq!['#'] + comment) == line,
        uncommented(line + seq!['"'] + quoted + seq!['"']) == line + seq!['"'] + quoted + seq!['"'],
{
    let a = line + seq!['#'] + comment;
    let n = line.len() as int;
    lemma_plain_part(a, 0, n, line);
    assert(a[n] == '#');
    assert(a.take(n) =~= line);
    let b = line + seq!['"'] + quoted + seq!['"'];
    let m = n + 1 + quoted.len();
    lemma_plain_part(b, 0, n, line);
    assert(b[n] == '"');
    assert forall|j: int| n < j < m implies b[j] != '"' && b[j] != '\\' by {
        assert(b[j] == quoted[j - n - 1]);
        assert(quoted.contains(quoted[j - n - 1]));
    }
    lemma_quoted_part(b, n + 1, m);
    assert(b[m] == '"');
    assert(comment_from(b, m + 1, None, false) == b.len());
    assert(b.take(b.len() as int) =~= b);
}

proof fn lemma_plain_part(s: Seq<char>, from: int, to: int, line: Seq<char>)
    requires
        0 <= from <= to <= s.len(),
        to == line.len(),
        !line.contains('#') && !line.contains('"') && !line.contains('\''),
        forall|j: int| 0 <= j < to ==> s[j] == line[j],
    ensures
        comment_from(s, from, None, false) == comment_from(s, to, None, false),
    decreases to - from,
{
    if from < to {
        assert(s[from] == line[from]);
        assert(line.contains(line[from]));
        lemma_plain_part(s, from + 1, to, line);
    }
}

proof fn lemma_quoted_part(s: Seq<char>, from: int, to: int)
    requires
        0 <= from <= to <= s.len(),
        forall|j: int| from <= j < to ==> s[j] != '"' && s[j] != '\\',
    ensures
        comment_from(s, from, Some('"'), false) == comment_from(s, to, Some('"'), false),
    decreases to - from,
{
    if from < to {
        lemma_quoted_part(s, from + 1, to);
    }
}

/// A key and its value stand around the first colon, trimmed; without a key there is none.
pub proof fn law_keys_and_values(key: Seq<char>, value: Seq<char>)
    requires
        !key.contains(':'),
    ensures
        key_value(key) is None,
        blank(key) ==> key_value(key + seq![':'] + value) is None,
        !blank(key) ==> key_value(key + seq![':'] + value) == Some((trimmed(key), trimmed(value))),
{
    crate::split::law_fields(key, value, ':');
}

/// A value in quotes is what stands between them, one that starts a block is refused, and
/// any other is as it stands, trimmed.
pub proof fn law_scalars(inner: Seq<char>, plain: Seq<char>)
    ensures
        scalar(seq!['"'] + inner + seq!['"']) == Ok::<Seq<char>, Seq<char>>(inner),
        scalar(seq!['\''] + inner + seq!['\'']) == Ok::<Seq<char>, Seq<char>>(inner),
        scalar(seq!['|'] + inner + seq!['x']) is Err,
        scalar(seq!['>'] + inner + seq!['x']) is Err,
        scalar(plain) matches Ok(v) ==> v == trimmed(plain) || trimmed(plain).len() == v.len() + 2,
        trimmed(plain).len() > 0 && trimmed(plain)[0] != '|' && trimmed(plain)[0] != '>'
            && trimmed(plain)[0] != '"' && trimmed(plain)[0] != '\'' ==> scalar(plain) == Ok::<
            Seq<char>,
            Seq<char>,
        >(trimmed(plain)),
{
    lemma_not_trimmed(seq!['"'] + inner + seq!['"']);
    lemma_not_trimmed(seq!['\''] + inner + seq!['\'']);
    lemma_not_trimmed(seq!['|'] + inner + seq!['x']);
    lemma_not_trimmed(seq!['>'] + inner + seq!['x']);
    let a = seq!['"'] + inner + seq!['"'];
    assert(a.subrange(1, a.len() - 1) =~= inner);
    let b = seq!['\''] + inner + seq!['\''];
    assert(b.subrange(1, b.len() - 1) =~= inner);
}

proof fn lemma_not_trimmed(s: Seq<char>)
    requires
        s.len() > 0,
        !crate::text::whitespace(s[0]),
        !crate::text::whitespace(s.last()),
    ensures
        trimmed(s) == s,
{
    assert(crate::split::trim_start_of(s) =~= s);
    assert(crate::split::trim_end_of(s) =~= s);
}

/// A line is indented by the spaces and tabs that it starts with.
pub proof fn law_indentation(line: Seq<char>, n: int)
    requires
        0 <= n <= line.len(),
        forall|j: int| 0 <= j < n ==> line[j] == ' ' || line[j] == '\t',
        n < line.len() ==> line[n] != ' ' && line[n] != '\t',
    ensures
        leading_from(line, 0) == n,
{
    lemma_leading(line, 0, n);
}

proof fn lemma_leading(line: Seq<char>, from: int, n: int)
    requires
        0 <= from <= n <= line.len(),
        forall|j: int| 0 <= j < n ==> line[j] == ' ' || line[j] == '\t',
        n < line.len() ==> line[n] != ' ' && line[n] != '\t',
    ensures
        leading_from(line, from) == n - from,
    decreases n - from,
{
    if from < n {
        lemma_leading(line, from + 1, n);
    }
}

} // verus!
