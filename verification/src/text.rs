//! Text as sequences of characters: searching, splitting, trimming and joining.
use vstd::prelude::*;

verus! {

/// Trusted: `String::push` appends one character to the end of the string.
pub assume_specification[ String::push ](s: &mut String, c: char)
    ensures
        final(s)@ == old(s)@.push(c),
;

/// The characters of a string, in order.
pub fn chars_of(s: &str) -> (v: Vec<char>)
    ensures
        v@ == s@,
{
    let mut v: Vec<char> = Vec::new();
    for c in iter: s.chars()
        invariant
            v@ == iter.seq().take(iter.index()),
            iter.seq() == s@,
    {
        proof {
            assert(iter.seq().take(iter.index() + 1) =~= iter.seq().take(iter.index()).push(c));
        }
        v.push(c);
    }
    proof {
        assert(s@.take(s@.len() as int) =~= s@);
    }
    v
}

/// The string made of the characters at the positions `from..to`.
pub fn text_of(v: &Vec<char>, from: usize, to: usize) -> (r: String)
    requires
        from <= to <= v@.len(),
    ensures
        r@ == v@.subrange(from as int, to as int),
{
    let mut r = String::new();
    let mut i: usize = from;
    while i < to
        invariant
            from <= i <= to <= v@.len(),
            r@ == v@.subrange(from as int, i as int),
        decreases to - i,
    {
        r.push(v[i]);
        proof {
            assert(v@.subrange(from as int, i as int + 1) =~= v@.subrange(
                from as int,
                i as int,
            ).push(v@[i as int]));
        }
        i += 1;
    }
    r
}

/// Whether two strings hold the same characters.
pub fn same_text(a: &str, b: &str) -> (r: bool)
    ensures
        r == (a@ == b@),
{
    let x = a.as_bytes();
    let y = b.as_bytes();
    if x.len() != y.len() {
        return false;
    }
    let mut i: usize = 0;
    while i < x.len()
        invariant
            i <= x@.len(),
            x@.len() == y@.len(),
            x@ == vstd::utf8::encode_utf8(a@),
            y@ == vstd::utf8::encode_utf8(b@),
            forall|k: int| 0 <= k < i ==> x@[k] == y@[k],
        decreases x@.len() - i,
    {
        if x[i] != y[i] {
            return false;
        }
        i += 1;
    }
    proof {
        assert(x@ =~= y@);
        vstd::utf8::encode_utf8_decode_utf8(a@);
        vstd::utf8::encode_utf8_decode_utf8(b@);
    }
    true
}

// ---------------------------------------------------------------------------
// Prefixes, suffixes and occurrences
// ---------------------------------------------------------------------------

/// `part` stands in `s` at position `at`.
pub open spec fn occurs_at(s: Seq<char>, part: Seq<char>, at: int) -> bool {
    0 <= at && at + part.len() <= s.len() && s.subrange(at, at + part.len()) == part
}

/// `part` stands somewhere in `s`.
pub open spec fn has_text(s: Seq<char>, part: Seq<char>) -> bool {
    exists|at: int| occurs_at(s, part, at)
}

/// `at` is the first position at which `part` stands in `s`.
pub open spec fn first_at(s: Seq<char>, part: Seq<char>, at: int) -> bool {
    occurs_at(s, part, at) && forall|j: int| 0 <= j < at ==> !occurs_at(s, part, j)
}

/// The first position of `part` in `s`.
pub open spec fn find_text(s: Seq<char>, part: Seq<char>) -> Option<int> {
    if has_text(s, part) {
        Some(choose|at: int| first_at(s, part, at))
    } else {
        None
    }
}

/// The first position of a text that occurs is one.
pub proof fn lemma_find_text(s: Seq<char>, part: Seq<char>, at: int)
    requires
        first_at(s, part, at),
    ensures
        find_text(s, part) == Some(at),
{
    let other = choose|k: int| first_at(s, part, k);
    assert(first_at(s, part, other));
    if other < at {
        assert(!occurs_at(s, part, other));
    }
    if at < other {
        assert(!occurs_at(s, part, at));
    }
}

/// What is left of `s` behind the prefix.
pub open spec fn after_prefix(s: Seq<char>, prefix: Seq<char>) -> Option<Seq<char>> {
    if prefix.is_prefix_of(s) {
        Some(s.skip(prefix.len() as int))
    } else {
        None
    }
}

/// What is left of `s` before the suffix.
pub open spec fn before_suffix(s: Seq<char>, suffix: Seq<char>) -> Option<Seq<char>> {
    if suffix.is_suffix_of(s) {
        Some(s.take(s.len() - suffix.len()))
    } else {
        None
    }
}

/// The view of an optional string.
pub open spec fn opt_view(s: Option<String>) -> Option<Seq<char>> {
    match s {
        Some(t) => Some(t@),
        None => None,
    }
}

/// The views of a list of strings.
pub open spec fn views(s: Seq<String>) -> Seq<Seq<char>> {
    s.map_values(|t: String| t@)
}

/// Whether `part` stands in `v` at `at`, position by position.
fn matches_at(v: &Vec<char>, part: &Vec<char>, at: usize) -> (r: bool)
    requires
        at <= v@.len(),
    ensures
        r == occurs_at(v@, part@, at as int),
{
    if part.len() > v.len() - at {
        return false;
    }
    let mut i: usize = 0;
    while i < part.len()
        invariant
            i <= part@.len(),
            at + part.len() <= v.len(),
            forall|k: int| 0 <= k < i ==> part@[k] == v@[at + k],
        decreases part@.len() - i,
    {
        if part[i] != v[at + i] {
            proof {
                assert(v@.subrange(at as int, at + part@.len())[i as int] != part@[i as int]);
            }
            return false;
        }
        i += 1;
    }
    proof {
        assert(v@.subrange(at as int, at + part@.len()) =~= part@);
    }
    true
}

/// Whether `s` begins with `prefix`.
pub fn starts_with(s: &str, prefix: &str) -> (r: bool)
    ensures
        r == prefix@.is_prefix_of(s@),
{
    let v = chars_of(s);
    let p = chars_of(prefix);
    let r = matches_at(&v, &p, 0);
    proof {
        if p@.len() <= v@.len() {
            assert(v@.subrange(0, p@.len() as int) =~= v@.take(p@.len() as int));
        }
    }
    r
}

/// Whether `s` ends with `suffix`.
pub fn ends_with(s: &str, suffix: &str) -> (r: bool)
    ensures
        r == suffix@.is_suffix_of(s@),
{
    let v = chars_of(s);
    let p = chars_of(suffix);
    if p.len() > v.len() {
        return false;
    }
    let r = matches_at(&v, &p, v.len() - p.len());
    proof {
        assert(v@.subrange(v@.len() - p@.len(), v@.len() as int) =~= v@.skip(v@.len() - p@.len()));
    }
    r
}

/// The first position at which `part` stands in `s`.
pub fn find(s: &str, part: &str) -> (r: Option<usize>)
    ensures
        match r {
            Some(at) => first_at(s@, part@, at as int) && find_text(s@, part@) == Some(at as int),
            None => !has_text(s@, part@) && find_text(s@, part@) is None,
        },
{
    let v = chars_of(s);
    let p = chars_of(part);
    let mut at: usize = 0;
    while at < v.len()
        invariant
            at <= v@.len(),
            v@ == s@,
            p@ == part@,
            forall|j: int| 0 <= j < at ==> !occurs_at(s@, part@, j),
        decreases v@.len() - at,
    {
        if matches_at(&v, &p, at) {
            proof {
                lemma_find_text(s@, part@, at as int);
            }
            return Some(at);
        }
        at += 1;
    }
    if matches_at(&v, &p, at) {
        proof {
            lemma_find_text(s@, part@, at as int);
        }
        return Some(at);
    }
    proof {
        assert forall|j: int| !occurs_at(s@, part@, j) by {
            if occurs_at(s@, part@, j) {
                assert(0 <= j <= s@.len());
            }
        }
    }
    None
}

/// Whether `part` stands somewhere in `s`.
pub fn contains(s: &str, part: &str) -> (r: bool)
    ensures
        r == has_text(s@, part@),
{
    match find(s, part) {
        Some(_) => true,
        None => false,
    }
}

/// What is left of `s` behind the prefix.
pub fn strip_prefix(s: &str, prefix: &str) -> (r: Option<String>)
    ensures
        opt_view(r) == after_prefix(s@, prefix@),
{
    if !starts_with(s, prefix) {
        return None;
    }
    let v = chars_of(s);
    let n: usize = chars_of(prefix).len();
    let r = text_of(&v, n, v.len());
    proof {
        assert(r@ =~= s@.skip(prefix@.len() as int));
    }
    Some(r)
}

/// What is left of `s` before the suffix.
pub fn strip_suffix(s: &str, suffix: &str) -> (r: Option<String>)
    ensures
        opt_view(r) == before_suffix(s@, suffix@),
{
    if !ends_with(s, suffix) {
        return None;
    }
    let v = chars_of(s);
    let n: usize = chars_of(suffix).len();
    let r = text_of(&v, 0, v.len() - n);
    proof {
        assert(r@ =~= s@.take(s@.len() - suffix@.len()));
    }
    Some(r)
}

/// `s` holds the character `c`.
pub fn has_char(s: &str, c: char) -> (r: bool)
    ensures
        r == s@.contains(c),
{
    let v = chars_of(s);
    let mut i: usize = 0;
    while i < v.len()
        invariant
            i <= v@.len(),
            v@ == s@,
            forall|k: int| 0 <= k < i ==> v@[k] != c,
        decreases v@.len() - i,
    {
        if v[i] == c {
            return true;
        }
        i += 1;
    }
    false
}

/// How many characters `s` holds.
pub fn char_count(s: &str) -> (r: usize)
    ensures
        r == s@.len(),
{
    chars_of(s).len()
}

/// The characters at the positions `from..to`.
pub fn substring(s: &str, from: usize, to: usize) -> (r: String)
    requires
        from <= to <= s@.len(),
    ensures
        r@ == s@.subrange(from as int, to as int),
{
    let v = chars_of(s);
    text_of(&v, from, to)
}

// ---------------------------------------------------------------------------
// Building text
// ---------------------------------------------------------------------------

/// The parts one after the other.
pub open spec fn concat_all(parts: Seq<Seq<char>>) -> Seq<char>
    decreases parts.len(),
{
    if parts.len() == 0 {
        Seq::empty()
    } else {
        concat_all(parts.drop_last()) + parts.last()
    }
}

/// The parts with the separator between them.
pub open spec fn joined(parts: Seq<Seq<char>>, separator: Seq<char>) -> Seq<char>
    decreases parts.len(),
{
    if parts.len() == 0 {
        Seq::empty()
    } else if parts.len() == 1 {
        parts[0]
    } else {
        joined(parts.drop_last(), separator) + separator + parts.last()
    }
}

/// The two texts one after the other.
pub fn concat2(a: &str, b: &str) -> (r: String)
    ensures
        r@ == a@ + b@,
{
    let mut r = a.to_owned();
    r.append(b);
    r
}

/// The three texts one after the other.
pub fn concat3(a: &str, b: &str, c: &str) -> (r: String)
    ensures
        r@ == a@ + b@ + c@,
{
    let mut r = a.to_owned();
    r.append(b);
    r.append(c);
    r
}

/// The parts with the separator between them.
pub fn join(parts: &Vec<String>, separator: &str) -> (r: String)
    ensures
        r@ == joined(views(parts@), separator@),
{
    let mut r = String::new();
    let mut i: usize = 0;
    while i < parts.len()
        invariant
            i <= parts@.len(),
            r@ == joined(views(parts@).take(i as int), separator@),
        decreases parts@.len() - i,
    {
        let ghost before = views(parts@).take(i as int);
        if i > 0 {
            r.append(separator);
        }
        r.append(parts[i].as_str());
        i += 1;
        proof {
            let now = views(parts@).take(i as int);
            assert(now.drop_last() =~= before);
            assert(now.last() == parts@[i - 1]@);
            if i == 1 {
                assert(before =~= Seq::empty());
                assert(r@ =~= now[0]);
            }
        }
    }
    proof {
        assert(views(parts@).take(parts@.len() as int) =~= views(parts@));
    }
    r
}

// ---------------------------------------------------------------------------
// Characters
// ---------------------------------------------------------------------------

/// The characters that `char::is_whitespace` accepts.
pub open spec fn whitespace(c: char) -> bool {
    let n = c as u32;
    (0x9 <= n <= 0xD) || n == 0x20 || n == 0x85 || n == 0xA0 || n == 0x1680 || (0x2000 <= n
        <= 0x200A) || n == 0x2028 || n == 0x2029 || n == 0x202F || n == 0x205F || n == 0x3000
}

/// Whether the character is white space.
pub fn is_whitespace(c: char) -> (r: bool)
    ensures
        r == whitespace(c),
{
    let n: u32 = c as u32;
    (0x9 <= n && n <= 0xD) || n == 0x20 || n == 0x85 || n == 0xA0 || n == 0x1680 || (0x2000 <= n
        && n <= 0x200A) || n == 0x2028 || n == 0x2029 || n == 0x202F || n == 0x205F || n == 0x3000
}

/// `0..=9`.
pub open spec fn digit(c: char) -> bool {
    '0' <= c <= '9'
}

/// `a..=z`.
pub open spec fn lower_letter(c: char) -> bool {
    'a' <= c <= 'z'
}

/// `A..=Z`.
pub open spec fn upper_letter(c: char) -> bool {
    'A' <= c <= 'Z'
}

/// An ASCII letter or digit.
pub open spec fn ascii_alphanumeric(c: char) -> bool {
    digit(c) || lower_letter(c) || upper_letter(c)
}

/// An ASCII hexadecimal digit.
pub open spec fn hex_digit(c: char) -> bool {
    digit(c) || 'a' <= c <= 'f' || 'A' <= c <= 'F'
}

/// Whether the character is `0..=9`.
pub fn is_digit(c: char) -> (r: bool)
    ensures
        r == digit(c),
{
    '0' <= c && c <= '9'
}

/// Whether the character is an ASCII letter or digit.
pub fn is_ascii_alphanumeric(c: char) -> (r: bool)
    ensures
        r == ascii_alphanumeric(c),
{
    ('0' <= c && c <= '9') || ('a' <= c && c <= 'z') || ('A' <= c && c <= 'Z')
}

/// Whether the character is an ASCII hexadecimal digit.
pub fn is_hex_digit(c: char) -> (r: bool)
    ensures
        r == hex_digit(c),
{
    ('0' <= c && c <= '9') || ('a' <= c && c <= 'f') || ('A' <= c && c <= 'F')
}

/// The character with an ASCII capital letter made small.
pub open spec fn lower_char(c: char) -> char {
    if upper_letter(c) {
        (c as u8 + 32) as char
    } else {
        c
    }
}

/// The character with an ASCII small letter made capital.
pub open spec fn upper_char(c: char) -> char {
    if lower_letter(c) {
        (c as u8 - 32) as char
    } else {
        c
    }
}

/// The text with its ASCII capital letters made small.
pub open spec fn lowercase(s: Seq<char>) -> Seq<char> {
    s.map_values(|c: char| lower_char(c))
}

/// The character with an ASCII capital letter made small.
pub fn to_lower_char(c: char) -> (r: char)
    ensures
        r == lower_char(c),
{
    if 'A' <= c && c <= 'Z' {
        ((c as u8) + 32) as char
    } else {
        c
    }
}

/// The character with an ASCII small letter made capital.
pub fn to_upper_char(c: char) -> (r: char)
    ensures
        r == upper_char(c),
{
    if 'a' <= c && c <= 'z' {
        ((c as u8) - 32) as char
    } else {
        c
    }
}

/// The text with its ASCII capital letters made small.
pub fn to_lowercase(s: &str) -> (r: String)
    ensures
        r@ == lowercase(s@),
{
    let v = chars_of(s);
    let mut r = String::new();
    let mut i: usize = 0;
    while i < v.len()
        invariant
            i <= v@.len(),
            v@ == s@,
            r@ == lowercase(s@.take(i as int)),
        decreases v@.len() - i,
    {
        r.push(to_lower_char(v[i]));
        proof {
            assert(lowercase(s@.take(i as int + 1)) =~= lowercase(s@.take(i as int)).push(
                lower_char(s@[i as int]),
            ));
        }
        i += 1;
    }
    proof {
        assert(s@.take(s@.len() as int) =~= s@);
    }
    r
}

// ---------------------------------------------------------------------------
// What holds of it
// ---------------------------------------------------------------------------

/// Where a text is found, it stands there and nowhere before; where none is found, it
/// stands nowhere.
pub proof fn law_found_text_is_first(s: Seq<char>, part: Seq<char>)
    ensures
        find_text(s, part) matches Some(at) ==> 0 <= at && at + part.len() <= s.len()
            && s.subrange(at, at + part.len()) == part && forall|j: int|
            0 <= j < at ==> !occurs_at(s, part, j),
        find_text(s, part) matches Some(at) ==> first_at(s, part, at),
        find_text(s, part) is None ==> forall|j: int|
            0 <= j <= s.len() - part.len() ==> #[trigger] s.subrange(j, j + part.len()) != part,
{
    if has_text(s, part) {
        let at = choose|at: int| occurs_at(s, part, at);
        lemma_first_up_to(s, part, at);
    } else {
        assert forall|j: int| 0 <= j <= s.len() - part.len() implies #[trigger] s.subrange(
            j,
            j + part.len(),
        ) != part by {
            assert(!occurs_at(s, part, j));
        }
    }
}

proof fn lemma_first_up_to(s: Seq<char>, part: Seq<char>, at: int)
    requires
        occurs_at(s, part, at),
    ensures
        exists|k: int| first_at(s, part, k),
    decreases at,
{
    if exists|j: int| 0 <= j < at && occurs_at(s, part, j) {
        let j = choose|j: int| 0 <= j < at && occurs_at(s, part, j);
        lemma_first_up_to(s, part, j);
    } else {
        assert(first_at(s, part, at));
    }
}

/// Texts that are joined stand in their order, with the separator between any two and
/// nowhere else.
pub proof fn law_joined_texts(parts: Seq<Seq<char>>, last: Seq<char>, separator: Seq<char>)
    ensures
        joined(Seq::empty(), separator) == Seq::<char>::empty(),
        joined(seq![last], separator) == last,
        parts.len() > 0 ==> joined(parts.push(last), separator) == joined(parts, separator)
            + separator + last,
{
    assert(parts.push(last).drop_last() =~= parts);
}

/// Texts that are put together stand in their order, with nothing between them.
pub proof fn law_texts_put_together(a: Seq<Seq<char>>, b: Seq<Seq<char>>, one: Seq<char>)
    ensures
        concat_all(a + b) == concat_all(a) + concat_all(b),
        concat_all(seq![one]) == one,
    decreases b.len(),
{
    assert(seq![one].drop_last() =~= Seq::empty());
    reveal_with_fuel(concat_all, 2);
    assert(concat_all(seq![one]) =~= one);
    if b.len() == 0 {
        assert(a + b =~= a);
        assert(concat_all(a) + concat_all(b) =~= concat_all(a));
    } else {
        assert((a + b).drop_last() =~= a + b.drop_last());
        law_texts_put_together(a, b.drop_last(), one);
        assert(concat_all(a + b) =~= concat_all(a) + concat_all(b));
    }
}

/// In lower case every large ASCII letter is the small one, and every other character is
/// as it was.
pub proof fn law_lower_case(s: Seq<char>, i: int)
    requires
        0 <= i < s.len(),
    ensures
        lowercase(s).len() == s.len(),
        'A' <= s[i] <= 'Z' ==> lowercase(s)[i] as u32 == s[i] as u32 + 32,
        !('A' <= s[i] <= 'Z') ==> lowercase(s)[i] == s[i],
        !('A' <= lowercase(s)[i] <= 'Z'),
        lowercase(lowercase(s)) == lowercase(s),
{
    assert(lowercase(lowercase(s)) =~= lowercase(s));
}

/// What stands behind a beginning and before an end is what they were put to.
pub proof fn law_beginnings_and_ends_are_taken_off(s: Seq<char>, part: Seq<char>)
    ensures
        after_prefix(part + s, part) == Some(s),
        before_suffix(s + part, part) == Some(s),
        after_prefix(s, part) matches Some(rest) ==> part + rest == s,
        before_suffix(s, part) matches Some(rest) ==> rest + part == s,
{
    assert((part + s).take(part.len() as int) =~= part);
    assert((part + s).skip(part.len() as int) =~= s);
    assert((s + part).take(s.len() as int) =~= s);
    assert((s + part).skip(s.len() as int) =~= part);
    if let Some(rest) = after_prefix(s, part) {
        assert(part + rest =~= s);
    }
    if let Some(rest) = before_suffix(s, part) {
        assert(rest + part =~= s);
    }
}

/// The kinds of characters, by their numbers.
pub proof fn law_characters(c: char)
    ensures
        digit(c) <==> 48 <= c as u32 <= 57,
        lower_letter(c) <==> 97 <= c as u32 <= 122,
        upper_letter(c) <==> 65 <= c as u32 <= 90,
        ascii_alphanumeric(c) <==> digit(c) || lower_letter(c) || upper_letter(c),
        hex_digit(c) <==> 48 <= c as u32 <= 57 || 65 <= c as u32 <= 70 || 97 <= c as u32 <= 102,
        lower_letter(c) ==> upper_char(c) as u32 == c as u32 - 32 && lower_char(upper_char(c))
            == c,
        !lower_letter(c) ==> upper_char(c) == c,
        whitespace(c) <==> seq![
            9u32,
            10,
            11,
            12,
            13,
            32,
            133,
            160,
            5760,
            8192,
            8193,
            8194,
            8195,
            8196,
            8197,
            8198,
            8199,
            8200,
            8201,
            8202,
            8232,
            8233,
            8239,
            8287,
            12288,
        ].contains(c as u32),
{
    let kinds = seq![
        9u32,
        10,
        11,
        12,
        13,
        32,
        133,
        160,
        5760,
        8192,
        8193,
        8194,
        8195,
        8196,
        8197,
        8198,
        8199,
        8200,
        8201,
        8202,
        8232,
        8233,
        8239,
        8287,
        12288,
    ];
    let n = c as u32;
    if whitespace(c) {
        if 9 <= n <= 13 {
            assert(kinds[n - 9] == n);
        } else if 8192 <= n <= 8202 {
            assert(kinds[n - 8192 + 9] == n);
        } else {
            assert(kinds[5] == 32 && kinds[6] == 133 && kinds[7] == 160 && kinds[8] == 5760);
            assert(kinds[20] == 8232 && kinds[21] == 8233 && kinds[22] == 8239);
            assert(kinds[23] == 8287 && kinds[24] == 12288);
        }
    }
}

} // verus!
