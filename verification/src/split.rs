//! Text cut into lines, fields and words, and the white space around it.
use vstd::prelude::*;

use crate::text::{chars_of, is_whitespace, text_of, views, whitespace};

verus! {

/// The first position of `c` at or behind `from`, or the length of `s`.
pub open spec fn next_char(s: Seq<char>, c: char, from: int) -> int
    decreases s.len() - from,
{
    if from < 0 || from >= s.len() {
        s.len() as int
    } else if s[from] == c {
        from
    } else {
        next_char(s, c, from + 1)
    }
}

proof fn lemma_next_char_is(s: Seq<char>, c: char, from: int, at: int)
    requires
        0 <= from <= at <= s.len(),
        at < s.len() ==> s[at] == c,
        forall|k: int| from <= k < at ==> s[k] != c,
    ensures
        next_char(s, c, from) == at,
    decreases at - from,
{
    if from < at {
        lemma_next_char_is(s, c, from + 1, at);
    }
}

/// The first position of `c` at or behind `from`, or the length.
pub fn next_char_in(v: &Vec<char>, c: char, from: usize) -> (r: usize)
    requires
        from <= v@.len(),
    ensures
        r == next_char(v@, c, from as int),
        from <= r <= v@.len(),
        r < v@.len() ==> v@[r as int] == c,
        forall|k: int| from <= k < r ==> v@[k] != c,
{
    let mut i: usize = from;
    while i < v.len() && v[i] != c
        invariant
            from <= i <= v@.len(),
            forall|k: int| from <= k < i ==> v@[k] != c,
        decreases v@.len() - i,
    {
        i += 1;
    }
    proof {
        lemma_next_char_is(v@, c, from as int, i as int);
    }
    i
}

/// A line without the carriage return that stood before its line feed.
pub open spec fn without_return(line: Seq<char>) -> Seq<char> {
    if line.len() > 0 && line.last() == '\r' {
        line.drop_last()
    } else {
        line
    }
}

/// The lines from position `from` on: each ends with a line feed, or with a
/// carriage return and a line feed, and the last may end with the text.
pub open spec fn lines_from(s: Seq<char>, from: int) -> Seq<Seq<char>>
    decreases s.len() - from,
{
    if from < 0 || from >= s.len() {
        Seq::empty()
    } else {
        let at = next_char(s, '\n', from);
        if from <= at < s.len() {
            seq![without_return(s.subrange(from, at))] + lines_from(s, at + 1)
        } else {
            seq![s.subrange(from, s.len() as int)]
        }
    }
}

/// The lines of a text.
pub open spec fn lines_of(s: Seq<char>) -> Seq<Seq<char>> {
    lines_from(s, 0)
}

/// The lines of a text.
pub fn lines(s: &str) -> (r: Vec<String>)
    ensures
        views(r@) == lines_of(s@),
{
    let v = chars_of(s);
    let mut r: Vec<String> = Vec::new();
    let mut from: usize = 0;
    proof {
        assert(views(r@) + lines_from(v@, 0) =~= lines_of(s@));
    }
    while from < v.len()
        invariant
            from <= v@.len(),
            v@ == s@,
            views(r@) + lines_from(v@, from as int) == lines_of(s@),
        decreases v@.len() - from,
    {
        let at: usize = next_char_in(&v, '\n', from);
        let ghost before = views(r@);
        if at < v.len() {
            let to: usize = if at > from && v[at - 1] == '\r' {
                at - 1
            } else {
                at
            };
            let line = text_of(&v, from, to);
            proof {
                let whole = v@.subrange(from as int, at as int);
                if at > from {
                    assert(whole.last() == v@[at - 1]);
                }
                assert(line@ =~= without_return(whole));
            }
            r.push(line);
            proof {
                assert(views(r@) =~= before.push(line@));
                assert(views(r@) + lines_from(v@, at + 1) =~= before + (seq![line@] + lines_from(
                    v@,
                    at + 1,
                )));
            }
            from = at + 1;
        } else {
            let line = text_of(&v, from, v.len());
            r.push(line);
            proof {
                assert(views(r@) =~= before.push(line@));
                assert(lines_from(v@, v@.len() as int) =~= Seq::empty());
                assert(views(r@) + lines_from(v@, v@.len() as int) =~= before + seq![line@]);
            }
            from = v.len();
        }
    }
    proof {
        assert(lines_from(v@, from as int) =~= Seq::empty());
        assert(views(r@) =~= lines_of(s@));
    }
    r
}

/// The fields from position `from` on, with a field on either side of each `c`.
pub open spec fn fields_from(s: Seq<char>, c: char, from: int) -> Seq<Seq<char>>
    decreases s.len() - from,
{
    let at = next_char(s, c, from);
    if 0 <= from <= at < s.len() {
        seq![s.subrange(from, at)] + fields_from(s, c, at + 1)
    } else {
        seq![s.subrange(from, s.len() as int)]
    }
}

/// The fields of a text, with a field on either side of each `c`.
pub open spec fn split_at_char(s: Seq<char>, c: char) -> Seq<Seq<char>> {
    fields_from(s, c, 0)
}

/// The fields of a text, with a field on either side of each `c`.
pub fn split(s: &str, c: char) -> (r: Vec<String>)
    ensures
        views(r@) == split_at_char(s@, c),
        r@.len() > 0,
{
    let v = chars_of(s);
    let mut r: Vec<String> = Vec::new();
    let mut from: usize = 0;
    let mut at: usize = next_char_in(&v, c, 0);
    proof {
        assert(views(r@) + fields_from(v@, c, 0) =~= split_at_char(s@, c));
    }
    while at < v.len()
        invariant
            from <= at <= v@.len(),
            v@ == s@,
            at == next_char(v@, c, from as int),
            views(r@) + fields_from(v@, c, from as int) == split_at_char(s@, c),
        decreases v@.len() - at,
    {
        let ghost before = views(r@);
        let part = text_of(&v, from, at);
        r.push(part);
        proof {
            assert(views(r@) =~= before.push(part@));
            assert(views(r@) + fields_from(v@, c, at + 1) =~= before + (seq![part@] + fields_from(
                v@,
                c,
                at + 1,
            )));
        }
        from = at + 1;
        at = next_char_in(&v, c, from);
    }
    let ghost before = views(r@);
    let part = text_of(&v, from, v.len());
    r.push(part);
    proof {
        assert(views(r@) =~= before.push(part@));
        assert(views(r@) =~= split_at_char(s@, c));
    }
    r
}

/// The two texts around the first `c`.
pub open spec fn split_once_at(s: Seq<char>, c: char) -> Option<(Seq<char>, Seq<char>)> {
    let at = next_char(s, c, 0);
    if at < s.len() {
        Some((s.take(at), s.skip(at + 1)))
    } else {
        None
    }
}

/// The view of an optional pair of strings.
pub open spec fn opt_pair_view(p: Option<(String, String)>) -> Option<(Seq<char>, Seq<char>)> {
    match p {
        Some((a, b)) => Some((a@, b@)),
        None => None,
    }
}

/// The two texts around the first `c`.
pub fn split_once(s: &str, c: char) -> (r: Option<(String, String)>)
    ensures
        opt_pair_view(r) == split_once_at(s@, c),
{
    let v = chars_of(s);
    let at: usize = next_char_in(&v, c, 0);
    if at < v.len() {
        let a = text_of(&v, 0, at);
        let b = text_of(&v, at + 1, v.len());
        proof {
            assert(a@ =~= s@.take(at as int));
            assert(b@ =~= s@.skip(at + 1));
        }
        Some((a, b))
    } else {
        None
    }
}

// ---------------------------------------------------------------------------
// White space
// ---------------------------------------------------------------------------

/// The first position at or behind `from` that holds no white space.
pub open spec fn skip_space(s: Seq<char>, from: int) -> int
    decreases s.len() - from,
{
    if 0 <= from < s.len() && whitespace(s[from]) {
        skip_space(s, from + 1)
    } else {
        from
    }
}

/// The position behind the last character before `to` that is no white space.
pub open spec fn back_over_space(s: Seq<char>, to: int) -> int
    decreases to,
{
    if 0 < to <= s.len() && whitespace(s[to - 1]) {
        back_over_space(s, to - 1)
    } else {
        to
    }
}

/// The first white space at or behind `from`, or the length of `s`.
pub open spec fn word_end(s: Seq<char>, from: int) -> int
    decreases s.len() - from,
{
    if 0 <= from < s.len() && !whitespace(s[from]) {
        word_end(s, from + 1)
    } else {
        from
    }
}

/// The text without the white space at its start.
pub open spec fn trim_start_of(s: Seq<char>) -> Seq<char> {
    s.skip(skip_space(s, 0))
}

/// The text without the white space at its end.
pub open spec fn trim_end_of(s: Seq<char>) -> Seq<char> {
    s.take(back_over_space(s, s.len() as int))
}

/// The text without the white space around it.
pub open spec fn trimmed(s: Seq<char>) -> Seq<char> {
    trim_end_of(trim_start_of(s))
}

/// Nothing but white space, or nothing at all.
pub open spec fn blank(s: Seq<char>) -> bool {
    trimmed(s).len() == 0
}

/// The words of a text from `from` on.
pub open spec fn words_from(s: Seq<char>, from: int) -> Seq<Seq<char>>
    decreases s.len() - from,
{
    let a = skip_space(s, from);
    let b = word_end(s, a);
    if 0 <= from <= a < b <= s.len() {
        seq![s.subrange(a, b)] + words_from(s, b)
    } else {
        Seq::empty()
    }
}

/// The words of a text: the longest runs without white space.
pub open spec fn words_of(s: Seq<char>) -> Seq<Seq<char>> {
    words_from(s, 0)
}

/// White space that is skipped lies in the text.
pub proof fn lemma_skip_space_bounds(s: Seq<char>, from: int)
    requires
        0 <= from <= s.len(),
    ensures
        from <= skip_space(s, from) <= s.len(),
    decreases s.len() - from,
{
    if from < s.len() && whitespace(s[from]) {
        lemma_skip_space_bounds(s, from + 1);
    }
}

fn skip_space_in(v: &Vec<char>, from: usize) -> (r: usize)
    requires
        from <= v@.len(),
    ensures
        r == skip_space(v@, from as int),
        from <= r <= v@.len(),
        r < v@.len() ==> !whitespace(v@[r as int]),
{
    let mut i: usize = from;
    while i < v.len() && is_whitespace(v[i])
        invariant
            from <= i <= v@.len(),
            skip_space(v@, from as int) == skip_space(v@, i as int),
        decreases v@.len() - i,
    {
        i += 1;
    }
    i
}

fn back_over_space_in(v: &Vec<char>, to: usize) -> (r: usize)
    requires
        to <= v@.len(),
    ensures
        r == back_over_space(v@, to as int),
        r <= to,
{
    let mut i: usize = to;
    while i > 0 && is_whitespace(v[i - 1])
        invariant
            i <= to <= v@.len(),
            back_over_space(v@, to as int) == back_over_space(v@, i as int),
        decreases i,
    {
        i -= 1;
    }
    i
}

fn word_end_in(v: &Vec<char>, from: usize) -> (r: usize)
    requires
        from <= v@.len(),
    ensures
        r == word_end(v@, from as int),
        from <= r <= v@.len(),
        from < v@.len() && !whitespace(v@[from as int]) ==> from < r,
{
    let mut i: usize = from;
    while i < v.len() && !is_whitespace(v[i])
        invariant
            from <= i <= v@.len(),
            word_end(v@, from as int) == word_end(v@, i as int),
        decreases v@.len() - i,
    {
        i += 1;
    }
    i
}

/// The text without the white space at its start.
pub fn trim_start(s: &str) -> (r: String)
    ensures
        r@ == trim_start_of(s@),
{
    let v = chars_of(s);
    let a: usize = skip_space_in(&v, 0);
    text_of(&v, a, v.len())
}

/// The text without the white space at its end.
pub fn trim_end(s: &str) -> (r: String)
    ensures
        r@ == trim_end_of(s@),
{
    let v = chars_of(s);
    let b: usize = back_over_space_in(&v, v.len());
    let r = text_of(&v, 0, b);
    proof {
        assert(r@ =~= s@.take(b as int));
    }
    r
}

/// The text without the white space around it.
pub fn trim(s: &str) -> (r: String)
    ensures
        r@ == trimmed(s@),
{
    let a = trim_start(s);
    trim_end(a.as_str())
}

/// Whether the text holds nothing but white space.
pub fn is_blank(s: &str) -> (r: bool)
    ensures
        r == blank(s@),
{
    let t = trim(s);
    t.as_str().is_empty()
}

/// The words of a text.
pub fn words(s: &str) -> (r: Vec<String>)
    ensures
        views(r@) == words_of(s@),
{
    let v = chars_of(s);
    let mut r: Vec<String> = Vec::new();
    let mut from: usize = 0;
    let mut a: usize = skip_space_in(&v, 0);
    proof {
        assert(views(r@) + words_from(v@, 0) =~= words_of(s@));
    }
    while a < v.len()
        invariant
            from <= a <= v@.len(),
            v@ == s@,
            a == skip_space(v@, from as int),
            a < v@.len() ==> !whitespace(v@[a as int]),
            views(r@) + words_from(v@, from as int) == words_of(s@),
        decreases v@.len() - a,
    {
        let b: usize = word_end_in(&v, a);
        let word = text_of(&v, a, b);
        let ghost before = views(r@);
        r.push(word);
        proof {
            assert(views(r@) =~= before.push(word@));
            assert(views(r@) + words_from(v@, b as int) =~= before + (seq![word@] + words_from(
                v@,
                b as int,
            )));
        }
        from = b;
        a = skip_space_in(&v, b);
    }
    proof {
        assert(words_from(v@, from as int) =~= Seq::empty());
        assert(views(r@) =~= words_of(s@));
    }
    r
}

// ---------------------------------------------------------------------------
// What holds of it
// ---------------------------------------------------------------------------

/// A text that ends with an end of line has as many lines as ends of lines: a line without
/// one in it, put before a text, becomes the first of its lines, without the return at its
/// end.
pub proof fn law_lines(line: Seq<char>, rest: Seq<char>)
    requires
        !line.contains('\n'),
    ensures
        lines_of(Seq::empty()).len() == 0,
        line.len() > 0 ==> lines_of(line) == seq![line],
        lines_of(line + seq!['\n'] + rest) == seq![
            if line.len() > 0 && line.last() == '\r' {
                line.drop_last()
            } else {
                line
            },
        ] + lines_of(rest),
{
    let s = line + seq!['\n'] + rest;
    let n = line.len() as int;
    assert forall|j: int| 0 <= j < n implies s[j] != '\n' by {
        assert(s[j] == line[j]);
        assert(line.contains(line[j]));
    }
    assert(s[n] == '\n');
    lemma_next_is_at(s, '\n', 0, n);
    assert(s.subrange(0, n) =~= line);
    lemma_lines_shifted(s, rest, n + 1, 0);
    if n > 0 {
        assert forall|j: int| 0 <= j < n implies line[j] != '\n' by {
            assert(line.contains(line[j]));
        }
        lemma_next_is_at(line, '\n', 0, n);
        assert(line.subrange(0, n) =~= line);
    }
}

proof fn lemma_next_is_at(s: Seq<char>, c: char, from: int, at: int)
    requires
        0 <= from <= at <= s.len(),
        at < s.len() ==> s[at] == c,
        forall|j: int| from <= j < at ==> s[j] != c,
    ensures
        next_char(s, c, from) == at,
    decreases at - from,
{
    if from < at {
        lemma_next_is_at(s, c, from + 1, at);
    }
}

proof fn lemma_next_shifted(s: Seq<char>, rest: Seq<char>, c: char, by: int, from: int)
    requires
        0 <= from <= rest.len(),
        0 <= by,
        s.len() == by + rest.len(),
        forall|j: int| 0 <= j < rest.len() ==> s[by + j] == rest[j],
    ensures
        next_char(s, c, by + from) == by + next_char(rest, c, from),
        from <= next_char(rest, c, from) <= rest.len(),
    decreases rest.len() - from,
{
    if from < rest.len() && rest[from] != c {
        assert(s[by + from] == rest[from]);
        lemma_next_shifted(s, rest, c, by, from + 1);
    } else if from < rest.len() {
        assert(s[by + from] == rest[from]);
    }
}

proof fn lemma_lines_shifted(s: Seq<char>, rest: Seq<char>, by: int, from: int)
    requires
        0 <= from <= rest.len(),
        0 <= by,
        s.len() == by + rest.len(),
        forall|j: int| 0 <= j < rest.len() ==> s[by + j] == rest[j],
    ensures
        lines_from(s, by + from) == lines_from(rest, from),
    decreases rest.len() - from,
{
    if from < rest.len() {
        lemma_next_shifted(s, rest, '\n', by, from);
        let at = next_char(rest, '\n', from);
        assert(s.subrange(by + from, by + at) =~= rest.subrange(from, at));
        if at < rest.len() {
            lemma_lines_shifted(s, rest, by, at + 1);
        }
    }
}

/// A text that is split at a character is its fields with that character between them, and
/// no field holds it.
pub proof fn law_fields(field: Seq<char>, rest: Seq<char>, c: char)
    requires
        !field.contains(c),
    ensures
        split_at_char(field, c) == seq![field],
        split_at_char(field + seq![c] + rest, c) == seq![field] + split_at_char(rest, c),
        split_once_at(field, c) is None,
        split_once_at(field + seq![c] + rest, c) == Some((field, rest)),
{
    let s = field + seq![c] + rest;
    let n = field.len() as int;
    assert forall|j: int| 0 <= j < n implies s[j] != c by {
        assert(s[j] == field[j]);
        assert(field.contains(field[j]));
    }
    assert forall|j: int| 0 <= j < n implies field[j] != c by {
        assert(field.contains(field[j]));
    }
    assert(s[n] == c);
    lemma_next_is_at(s, c, 0, n);
    lemma_next_is_at(field, c, 0, n);
    assert(s.subrange(0, n) =~= field);
    assert(field.subrange(0, n) =~= field);
    assert(s.take(n) =~= field);
    assert(s.skip(n + 1) =~= rest);
    lemma_fields_shifted(s, rest, c, n + 1, 0);
}

proof fn lemma_fields_shifted(s: Seq<char>, rest: Seq<char>, c: char, by: int, from: int)
    requires
        0 <= from <= rest.len(),
        0 <= by,
        s.len() == by + rest.len(),
        forall|j: int| 0 <= j < rest.len() ==> s[by + j] == rest[j],
    ensures
        fields_from(s, c, by + from) == fields_from(rest, c, from),
    decreases rest.len() - from,
{
    lemma_next_shifted(s, rest, c, by, from);
    let at = next_char(rest, c, from);
    assert(s.subrange(by + from, by + at) =~= rest.subrange(from, at));
    assert(s.subrange(by + from, s.len() as int) =~= rest.subrange(from, rest.len() as int));
    if at < rest.len() {
        lemma_fields_shifted(s, rest, c, by, at + 1);
    }
}

/// A trimmed text neither starts nor ends with space, and what was taken off at its ends
/// was space alone.
pub proof fn law_trimmed(s: Seq<char>)
    ensures
        trimmed(s).len() > 0 ==> !whitespace(trimmed(s)[0]) && !whitespace(trimmed(s).last()),
        exists|a: int, b: int|
            0 <= a <= b <= s.len() && #[trigger] s.subrange(a, b) == trimmed(s) && (forall|j: int|
                0 <= j < a ==> whitespace(#[trigger] s[j])) && (forall|j: int|
                b <= j < s.len() ==> whitespace(#[trigger] s[j])),
{
    let a = skip_space(s, 0);
    lemma_skipped(s, 0);
    let t = trim_start_of(s);
    let n = back_over_space(t, t.len() as int);
    lemma_gone_back(t, t.len() as int);
    let b = a + n;
    assert(s.subrange(a, b) =~= trimmed(s));
    assert forall|j: int| b <= j < s.len() implies whitespace(#[trigger] s[j]) by {
        assert(t[j - a] == s[j]);
    }
    if n > 0 {
        assert(trimmed(s)[0] == s[a]);
        assert(trimmed(s).last() == t[n - 1]);
    }
}

proof fn lemma_skipped(s: Seq<char>, from: int)
    requires
        0 <= from <= s.len(),
    ensures
        from <= skip_space(s, from) <= s.len(),
        forall|j: int| from <= j < skip_space(s, from) ==> whitespace(#[trigger] s[j]),
        skip_space(s, from) < s.len() ==> !whitespace(s[skip_space(s, from)]),
    decreases s.len() - from,
{
    if from < s.len() && whitespace(s[from]) {
        lemma_skipped(s, from + 1);
    }
}

proof fn lemma_gone_back(s: Seq<char>, to: int)
    requires
        0 <= to <= s.len(),
    ensures
        0 <= back_over_space(s, to) <= to,
        forall|j: int| back_over_space(s, to) <= j < to ==> whitespace(#[trigger] s[j]),
        back_over_space(s, to) > 0 ==> !whitespace(s[back_over_space(s, to) - 1]),
    decreases to,
{
    if 0 < to && whitespace(s[to - 1]) {
        lemma_gone_back(s, to - 1);
    }
}

/// A text is blank exactly if all of it is space.
pub proof fn law_blank(s: Seq<char>)
    ensures
        blank(s) <==> forall|j: int| 0 <= j < s.len() ==> whitespace(#[trigger] s[j]),
{
    law_trimmed(s);
    let (a, b) = choose|a: int, b: int|
        0 <= a <= b <= s.len() && #[trigger] s.subrange(a, b) == trimmed(s) && (forall|j: int|
            0 <= j < a ==> whitespace(#[trigger] s[j])) && (forall|j: int|
            b <= j < s.len() ==> whitespace(#[trigger] s[j]));
    if a < b {
        assert(trimmed(s)[0] == s[a]);
        assert(!whitespace(s[a]));
    }
}

/// The words of a text are what stands between its spaces: a word before a space and a
/// text is the first of the words, and space in front of a text changes nothing.
pub proof fn law_words(word: Seq<char>, space: char, rest: Seq<char>)
    requires
        word.len() > 0,
        forall|j: int| 0 <= j < word.len() ==> !whitespace(#[trigger] word[j]),
        whitespace(space),
    ensures
        words_of(Seq::empty()).len() == 0,
        words_of(word) == seq![word],
        words_of(word + seq![space] + rest) == seq![word] + words_of(rest),
        words_of(seq![space] + rest) == words_of(rest),
{
    let n = word.len() as int;
    let s = word + seq![space] + rest;
    assert(s[0] == word[0]);
    assert forall|j: int| 0 <= j < n implies !whitespace(#[trigger] s[j]) by {
        assert(s[j] == word[j]);
    }
    assert(s[n] == space);
    lemma_word_end_at(s, 0, n);
    lemma_word_end_at(word, 0, n);
    assert(s.subrange(0, n) =~= word);
    assert(word.subrange(0, n) =~= word);
    lemma_words_shifted(s, rest, n + 1, 0);
    assert(skip_space(s, n) == skip_space(s, n + 1));
    lemma_words_over_space(s, n);
    lemma_skipped(word, n);
    assert(words_from(word, n) =~= Seq::empty());
    assert(words_of(word) =~= seq![word]);
    let t = seq![space] + rest;
    assert(t[0] == space);
    lemma_words_shifted(t, rest, 1, 0);
    lemma_words_over_space(t, 0);
}

proof fn lemma_words_over_space(s: Seq<char>, from: int)
    requires
        0 <= from < s.len(),
        whitespace(s[from]),
    ensures
        words_from(s, from) == words_from(s, from + 1),
{
    lemma_skipped(s, from + 1);
}

proof fn lemma_word_end_at(s: Seq<char>, from: int, to: int)
    requires
        0 <= from <= to <= s.len(),
        forall|j: int| from <= j < to ==> !whitespace(#[trigger] s[j]),
        to < s.len() ==> whitespace(s[to]),
    ensures
        word_end(s, from) == to,
    decreases to - from,
{
    if from < to {
        assert(!whitespace(s[from]));
        lemma_word_end_at(s, from + 1, to);
    }
}

proof fn lemma_ends_shifted(s: Seq<char>, rest: Seq<char>, by: int, from: int)
    requires
        0 <= from <= rest.len(),
        0 <= by,
        s.len() == by + rest.len(),
        forall|j: int| 0 <= j < rest.len() ==> s[by + j] == rest[j],
    ensures
        word_end(s, by + from) == by + word_end(rest, from),
        skip_space(s, by + from) == by + skip_space(rest, from),
        from <= word_end(rest, from) <= rest.len(),
    decreases rest.len() - from,
{
    if from < rest.len() {
        assert(s[by + from] == rest[from]);
        lemma_ends_shifted(s, rest, by, from + 1);
    }
}

proof fn lemma_words_shifted(s: Seq<char>, rest: Seq<char>, by: int, from: int)
    requires
        0 <= from <= rest.len(),
        0 <= by,
        s.len() == by + rest.len(),
        forall|j: int| 0 <= j < rest.len() ==> s[by + j] == rest[j],
    ensures
        words_from(s, by + from) == words_from(rest, from),
    decreases rest.len() - from,
{
    lemma_ends_shifted(s, rest, by, from);
    lemma_skipped(rest, from);
    let a = skip_space(rest, from);
    lemma_ends_shifted(s, rest, by, a);
    let b = word_end(rest, a);
    assert(s.subrange(by + a, by + b) =~= rest.subrange(a, b));
    if from <= a < b <= rest.len() {
        lemma_words_shifted(s, rest, by, b);
    }
}

} // verus!
