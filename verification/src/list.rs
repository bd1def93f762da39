//! Lists of texts without repetitions.
use vstd::prelude::*;

use crate::text::{same_text, views};

verus! {

/// The items with each one kept where it first occurs.
pub open spec fn distinct<A>(s: Seq<A>) -> Seq<A>
    decreases s.len(),
{
    if s.len() == 0 {
        s
    } else {
        let rest = distinct(s.drop_last());
        if rest.contains(s.last()) {
            rest
        } else {
            rest.push(s.last())
        }
    }
}

/// What is kept are the items, each once.
pub proof fn law_distinct<A>(s: Seq<A>)
    ensures
        distinct(s).no_duplicates(),
        forall|x: A| distinct(s).contains(x) <==> s.contains(x),
        distinct(s).len() <= s.len(),
    decreases s.len(),
{
    if s.len() > 0 {
        let rest = distinct(s.drop_last());
        law_distinct(s.drop_last());
        assert(s =~= s.drop_last().push(s.last()));
        assert forall|x: A| distinct(s).contains(x) <==> s.contains(x) by {
            if s.contains(x) {
                let k = choose|k: int| 0 <= k < s.len() && s[k] == x;
                if k < s.len() - 1 {
                    assert(s.drop_last()[k] == x);
                    assert(s.drop_last().contains(x));
                    assert(rest.contains(x));
                    let j = choose|j: int| 0 <= j < rest.len() && rest[j] == x;
                    assert(distinct(s)[j] == x);
                } else if !rest.contains(x) {
                    assert(distinct(s)[rest.len() as int] == x);
                }
            }
            if distinct(s).contains(x) {
                let j = choose|j: int| 0 <= j < distinct(s).len() && distinct(s)[j] == x;
                if j < rest.len() {
                    assert(rest[j] == x);
                    assert(s.drop_last().contains(x));
                    let k = choose|k: int| 0 <= k < s.drop_last().len() && s.drop_last()[k] == x;
                    assert(s[k] == x);
                } else {
                    assert(s[s.len() - 1] == x);
                }
            }
        }
    }
}

/// Keeping each item once changes nothing when it is done again.
pub proof fn law_distinct_again<A>(s: Seq<A>)
    requires
        s.no_duplicates(),
    ensures
        distinct(s) == s,
    decreases s.len(),
{
    if s.len() > 0 {
        assert(s.drop_last().no_duplicates()) by {
            assert forall|i: int, j: int|
                0 <= i < s.drop_last().len() && 0 <= j < s.drop_last().len() && i
                    != j implies s.drop_last()[i] != s.drop_last()[j] by {
                assert(s[i] != s[j]);
            }
        }
        law_distinct_again(s.drop_last());
        assert(!s.drop_last().contains(s.last())) by {
            if s.drop_last().contains(s.last()) {
                let k = choose|k: int|
                    0 <= k < s.drop_last().len() && s.drop_last()[k] == s.last();
                assert(s[k] == s[s.len() - 1]);
            }
        }
        assert(s =~= s.drop_last().push(s.last()));
    }
}

/// Whether the list holds the text.
pub fn holds(list: &Vec<String>, s: &str) -> (r: bool)
    ensures
        r == views(list@).contains(s@),
{
    let mut i: usize = 0;
    while i < list.len()
        invariant
            i <= list@.len(),
            forall|k: int| 0 <= k < i ==> views(list@)[k] != s@,
        decreases list@.len() - i,
    {
        proof {
            assert(views(list@)[i as int] == list@[i as int]@);
        }
        if same_text(list[i].as_str(), s) {
            return true;
        }
        i += 1;
    }
    false
}

/// Appends the text unless the list holds it.
pub fn push_unique(values: &mut Vec<String>, value: String)
    ensures
        views(final(values)@) == if views(old(values)@).contains(value@) {
            views(old(values)@)
        } else {
            views(old(values)@).push(value@)
        },
{
    if !holds(values, value.as_str()) {
        values.push(value);
        proof {
            assert(views(values@) =~= views(old(values)@).push(value@));
        }
    }
}

/// Keeps each text where it first occurs.
pub fn deduplicate_preserving_order(values: &mut Vec<String>)
    ensures
        views(final(values)@) == distinct(views(old(values)@)),
{
    let ghost all = views(values@);
    let mut kept: Vec<String> = Vec::new();
    let mut i: usize = 0;
    proof {
        assert(views(kept@) =~= Seq::empty());
        assert(all.take(0) =~= Seq::empty());
    }
    while i < values.len()
        invariant
            i <= values@.len(),
            all == views(values@),
            views(kept@) == distinct(all.take(i as int)),
        decreases values@.len() - i,
    {
        proof {
            assert(all.take(i + 1).drop_last() =~= all.take(i as int));
            assert(all.take(i + 1).last() == values@[i as int]@);
        }
        push_unique(&mut kept, values[i].clone());
        i += 1;
    }
    proof {
        assert(all.take(all.len() as int) =~= all);
    }
    *values = kept;
}

/// A copy of a list of texts.
pub fn copy_texts(list: &Vec<String>) -> (r: Vec<String>)
    ensures
        r@ == list@,
        views(r@) == views(list@),
{
    let mut r: Vec<String> = Vec::new();
    let mut i: usize = 0;
    while i < list.len()
        invariant
            i <= list@.len(),
            r@ == list@.take(i as int),
        decreases list@.len() - i,
    {
        r.push(list[i].clone());
        proof {
            assert(list@.take(i + 1) =~= list@.take(i as int).push(list@[i as int]));
        }
        i += 1;
    }
    proof {
        assert(list@.take(list@.len() as int) =~= list@);
    }
    r
}

// ---------------------------------------------------------------------------
// What holds of it
// ---------------------------------------------------------------------------

/// What occurs more than once stays where it occurs first: a further item is added exactly
/// if it is new, behind all others.
pub proof fn law_first_occurrences_stay<A>(s: Seq<A>, x: A)
    ensures
        distinct(Seq::<A>::empty()).len() == 0,
        s.contains(x) ==> distinct(s.push(x)) == distinct(s),
        !s.contains(x) ==> distinct(s.push(x)) == distinct(s).push(x),
{
    law_distinct(s);
    assert(s.push(x).drop_last() =~= s);
    assert(distinct(s).contains(x) <==> s.contains(x));
}

} // verus!
