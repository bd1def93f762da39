//! How many bytes a text takes in UTF-8, and texts cut to a number of bytes.
use vstd::prelude::*;

use vstd::utf8::{decode_utf8, decode_utf8_encode_utf8, encode_utf8, valid_utf8};

use crate::text::{chars_of, opt_view, text_of};

verus! {

/// The bytes that a character takes in UTF-8.
pub open spec fn char_width(c: char) -> nat {
    let n = c as u32;
    if n < 0x80 {
        1
    } else if n < 0x800 {
        2
    } else if n < 0x10000 {
        3
    } else {
        4
    }
}

/// The bytes that a text takes in UTF-8.
pub open spec fn utf8_len(s: Seq<char>) -> nat
    decreases s.len(),
{
    if s.len() == 0 {
        0
    } else {
        utf8_len(s.drop_last()) + char_width(s.last())
    }
}

/// The bytes that a text takes, as far as `usize` can count them.
pub open spec fn counted_bytes(s: Seq<char>) -> nat {
    if utf8_len(s) <= usize::MAX {
        utf8_len(s)
    } else {
        usize::MAX as nat
    }
}

/// The longest start of a text that takes at most `max` bytes.
pub open spec fn fitting(s: Seq<char>, max: nat) -> Seq<char>
    decreases s.len(),
{
    if utf8_len(s) <= max || s.len() == 0 {
        s
    } else {
        fitting(s.drop_last(), max)
    }
}

/// A start of a text takes no more bytes than the text.
pub proof fn lemma_utf8_len_take(s: Seq<char>, k: int)
    requires
        0 <= k <= s.len(),
    ensures
        utf8_len(s.take(k)) <= utf8_len(s),
    decreases s.len() - k,
{
    if k < s.len() {
        lemma_utf8_len_take(s, k + 1);
        assert(s.take(k + 1).drop_last() =~= s.take(k));
    } else {
        assert(s.take(k) =~= s);
    }
}

/// The bytes of two texts add up.
pub proof fn lemma_utf8_len_concat(a: Seq<char>, b: Seq<char>)
    ensures
        utf8_len(a + b) == utf8_len(a) + utf8_len(b),
    decreases b.len(),
{
    if b.len() == 0 {
        assert(a + b =~= a);
    } else {
        assert((a + b).drop_last() =~= a + b.drop_last());
        lemma_utf8_len_concat(a, b.drop_last());
    }
}

/// What is kept of a text is a start of it that takes at most `max` bytes, and no
/// longer start does.
pub proof fn law_fitting(s: Seq<char>, max: nat)
    ensures
        fitting(s, max).is_prefix_of(s),
        utf8_len(fitting(s, max)) <= max,
        forall|k: int|
            fitting(s, max).len() < k <= s.len() ==> utf8_len(#[trigger] s.take(k)) > max,
    decreases s.len(),
{
    if utf8_len(s) <= max || s.len() == 0 {
        assert(s.take(s.len() as int) =~= s);
    } else {
        law_fitting(s.drop_last(), max);
        assert forall|k: int| fitting(s, max).len() < k <= s.len() implies utf8_len(
            #[trigger] s.take(k),
        ) > max by {
            if k < s.len() {
                assert(s.drop_last().take(k) =~= s.take(k));
            } else {
                assert(s.take(k) =~= s);
            }
        }
    }
}

proof fn lemma_fitting_is(s: Seq<char>, max: nat, k: int)
    requires
        0 <= k <= s.len(),
        utf8_len(s.take(k)) <= max,
        k < s.len() ==> utf8_len(s.take(k + 1)) > max,
    ensures
        fitting(s, max) == s.take(k),
    decreases s.len(),
{
    if k == s.len() {
        assert(s.take(k) =~= s);
    } else {
        lemma_utf8_len_take(s, k + 1);
        assert(s.drop_last().take(k) =~= s.take(k));
        if k + 1 < s.len() {
            assert(s.drop_last().take(k + 1) =~= s.take(k + 1));
        }
        lemma_fitting_is(s.drop_last(), max, k);
    }
}

/// The bytes that a character takes in UTF-8.
pub fn width(c: char) -> (r: usize)
    ensures
        r == char_width(c),
        1 <= r <= 4,
{
    let n: u32 = c as u32;
    if n < 0x80 {
        1
    } else if n < 0x800 {
        2
    } else if n < 0x10000 {
        3
    } else {
        4
    }
}

/// The bytes that a text takes.
pub fn byte_len(s: &str) -> (r: usize)
    ensures
        r == counted_bytes(s@),
{
    let v = chars_of(s);
    let mut total: usize = 0;
    let mut i: usize = 0;
    while i < v.len()
        invariant
            i <= v@.len(),
            v@ == s@,
            total == utf8_len(s@.take(i as int)),
        decreases v@.len() - i,
    {
        let w: usize = width(v[i]);
        proof {
            assert(s@.take(i + 1).drop_last() =~= s@.take(i as int));
            lemma_utf8_len_take(s@, i + 1);
        }
        if total > usize::MAX - w {
            return usize::MAX;
        }
        total += w;
        i += 1;
    }
    proof {
        assert(s@.take(s@.len() as int) =~= s@);
    }
    total
}

/// How many characters the longest start of `s` of at most `max` bytes has.
pub fn fitting_chars(v: &Vec<char>, max: usize) -> (r: usize)
    ensures
        r <= v@.len(),
        fitting(v@, max as nat) == v@.take(r as int),
{
    let mut total: usize = 0;
    let mut i: usize = 0;
    while i < v.len()
        invariant
            i <= v@.len(),
            total == utf8_len(v@.take(i as int)),
            total <= max,
        decreases v@.len() - i,
    {
        let w: usize = width(v[i]);
        proof {
            assert(v@.take(i + 1).drop_last() =~= v@.take(i as int));
        }
        if w > max || total > max - w {
            proof {
                lemma_fitting_is(v@, max as nat, i as int);
            }
            return i;
        }
        total += w;
        i += 1;
    }
    proof {
        lemma_fitting_is(v@, max as nat, i as int);
    }
    i
}

/// The longest start of `s` that takes at most `max` bytes.
pub fn fit(s: &str, max: usize) -> (r: String)
    ensures
        r@ == fitting(s@, max as nat),
{
    let v = chars_of(s);
    let n: usize = fitting_chars(&v, max);
    let r = text_of(&v, 0, n);
    proof {
        assert(r@ =~= v@.take(n as int));
    }
    r
}

// ---------------------------------------------------------------------------
// Reading bytes
// ---------------------------------------------------------------------------

/// Where bytes stop being UTF-8, and whether they only end too early there.
pub uninterp spec fn utf8_failure(bytes: Seq<u8>) -> (nat, bool);

/// Trusted: `std::str::from_utf8`, with `Utf8Error::valid_up_to` and
/// `Utf8Error::error_len`. Bytes that are UTF-8 give their text. Of others, the error
/// depends on the bytes alone: it has the length of the longest start that is UTF-8, and
/// says that the input ended too early only at most three bytes behind it. Which bytes
/// it takes for a character that was cut off is not said.
#[verifier::external_body]
pub(crate) fn read_utf8(bytes: &Vec<u8>) -> (r: Result<String, (usize, bool)>)
    ensures
        match r {
            Ok(text) => valid_utf8(bytes@) && text@ == decode_utf8(bytes@),
            Err((end, cut)) => {
                &&& !valid_utf8(bytes@)
                &&& utf8_failure(bytes@) == (end as nat, cut)
                &&& end < bytes@.len()
                &&& valid_utf8(bytes@.take(end as int))
                &&& forall|k: int|
                    end < k <= bytes@.len() ==> !valid_utf8(#[trigger] bytes@.take(k))
                &&& cut ==> bytes@.len() - end <= 3
            },
        },
{
    match std::str::from_utf8(bytes) {
        Ok(text) => Ok(text.to_owned()),
        Err(error) => Err((error.valid_up_to(), error.error_len().is_none())),
    }
}

/// The text of bytes that may have been cut off within a character, or none where they
/// are no UTF-8; `failure` says where they stop being UTF-8, and whether they only end
/// too early there.
pub open spec fn bounded_text(bytes: Seq<u8>, failure: (nat, bool)) -> Option<Seq<char>> {
    if valid_utf8(bytes) {
        Some(decode_utf8(bytes))
    } else if failure.1 {
        Some(decode_utf8(bytes.take(failure.0 as int)))
    } else {
        None
    }
}

/// The text of bytes that may have been cut off within a character, or none where they
/// are no UTF-8. It is the text of a start of the bytes.
pub fn read_bounded_text(bytes: Vec<u8>) -> (r: Option<String>)
    ensures
        opt_view(r) == bounded_text(bytes@, utf8_failure(bytes@)),
        match r {
            Some(text) => encode_utf8(text@).is_prefix_of(bytes@),
            None => !valid_utf8(bytes@),
        },
{
    let ghost all = bytes@;
    match read_utf8(&bytes) {
        Ok(text) => {
            proof {
                decode_utf8_encode_utf8(all);
            }
            Some(text)
        },
        Err((end, cut)) => {
            if !cut {
                return None;
            }
            let mut bytes = bytes;
            bytes.truncate(end);
            proof {
                assert(bytes@ =~= all.take(end as int));
                decode_utf8_encode_utf8(all.take(end as int));
            }
            match read_utf8(&bytes) {
                Ok(text) => Some(text),
                Err(_) => None,
            }
        },
    }
}

// ---------------------------------------------------------------------------
// What holds of it
// ---------------------------------------------------------------------------

/// A text is as long as its parts, and a character takes from one to four bytes.
pub proof fn law_text_bytes_add_up(s: Seq<char>, t: Seq<char>, c: char)
    ensures
        utf8_len(s + t) == utf8_len(s) + utf8_len(t),
        utf8_len(s.push(c)) == utf8_len(s) + char_width(c),
        s.len() <= utf8_len(s) <= 4 * s.len(),
        (c as u32) < 128 <==> char_width(c) == 1,
        (c as u32) < 2048 <==> char_width(c) <= 2,
        (c as u32) < 65536 <==> char_width(c) <= 3,
        char_width(c) <= 4,
    decreases s.len() + t.len(),
{
    assert(s.push(c).drop_last() =~= s);
    if t.len() == 0 {
        assert(s + t =~= s);
    } else {
        law_text_bytes_add_up(s, t.drop_last(), c);
        assert((s + t).drop_last() =~= s + t.drop_last());
    }
    lemma_text_bytes(s);
}

proof fn lemma_text_bytes(s: Seq<char>)
    ensures
        s.len() <= utf8_len(s) <= 4 * s.len(),
    decreases s.len(),
{
    if s.len() > 0 {
        lemma_text_bytes(s.drop_last());
    }
}

/// A text that fits stays as it is.
pub proof fn law_fitting_texts_stay(s: Seq<char>, max: nat)
    ensures
        utf8_len(s) <= max ==> fitting(s, max) == s,
        utf8_len(s) > max ==> fitting(s, max).len() < s.len(),
{
    law_fitting(s, max);
    if fitting(s, max).len() == s.len() {
        assert(fitting(s, max) =~= s);
    }
}

/// Bytes are read as far as they are text, where only their end is cut off; other bytes that
/// are no text are not read.
pub proof fn law_bounded_bytes_are_read(bytes: Seq<u8>, upto: nat, cut_off: bool)
    ensures
        valid_utf8(bytes) ==> bounded_text(bytes, (upto, cut_off)) == Some(decode_utf8(bytes)),
        !valid_utf8(bytes) && cut_off ==> bounded_text(bytes, (upto, cut_off)) == Some(
            decode_utf8(bytes.subrange(0, upto as int)),
        ),
        !valid_utf8(bytes) ==> (bounded_text(bytes, (upto, cut_off)) is Some <==> cut_off),
{
}

} // verus!
