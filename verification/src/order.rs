//! The order of texts, and sorting that keeps equal items in place.
use vstd::prelude::*;

use crate::list::{deduplicate_preserving_order, distinct};
use crate::text::{chars_of, views};

verus! {

/// `a` comes before `b` in the order of their characters.
pub open spec fn text_before(a: Seq<char>, b: Seq<char>) -> bool
    decreases a.len(),
{
    if b.len() == 0 {
        false
    } else if a.len() == 0 {
        true
    } else if a[0] != b[0] {
        a[0] < b[0]
    } else {
        text_before(a.skip(1), b.skip(1))
    }
}

/// `a` comes before `b` or is `b`.
pub open spec fn text_le(a: Seq<char>, b: Seq<char>) -> bool {
    a == b || text_before(a, b)
}

/// No text comes before itself.
pub proof fn lemma_text_before_irreflexive(a: Seq<char>)
    ensures
        !text_before(a, a),
    decreases a.len(),
{
    if a.len() > 0 {
        lemma_text_before_irreflexive(a.skip(1));
    }
}

/// The order of texts is transitive.
pub proof fn lemma_text_before_transitive(a: Seq<char>, b: Seq<char>, c: Seq<char>)
    requires
        text_before(a, b),
        text_before(b, c),
    ensures
        text_before(a, c),
    decreases a.len(),
{
    if a.len() > 0 && a[0] == b[0] && b[0] == c[0] {
        lemma_text_before_transitive(a.skip(1), b.skip(1), c.skip(1));
    }
}

/// The order of texts that allows equality is transitive.
pub proof fn lemma_text_le_transitive(a: Seq<char>, b: Seq<char>, c: Seq<char>)
    requires
        text_le(a, b),
        text_le(b, c),
    ensures
        text_le(a, c),
{
    if a != b && b != c {
        lemma_text_before_transitive(a, b, c);
    }
}

/// Two texts are the same, or one comes before the other.
pub proof fn lemma_text_before_total(a: Seq<char>, b: Seq<char>)
    ensures
        a == b || text_before(a, b) || text_before(b, a),
    decreases a.len(),
{
    if a.len() > 0 && b.len() > 0 && a[0] == b[0] {
        lemma_text_before_total(a.skip(1), b.skip(1));
        if a.skip(1) == b.skip(1) {
            assert(a =~= seq![a[0]] + a.skip(1));
            assert(b =~= seq![b[0]] + b.skip(1));
        }
    } else if a.len() == 0 && b.len() == 0 {
        assert(a =~= b);
    }
}

proof fn lemma_text_before_skip(a: Seq<char>, b: Seq<char>, i: int)
    requires
        0 <= i <= a.len(),
        i <= b.len(),
        forall|k: int| 0 <= k < i ==> a[k] == b[k],
    ensures
        text_before(a, b) == text_before(a.skip(i), b.skip(i)),
    decreases i,
{
    if i == 0 {
        assert(a.skip(0) =~= a);
        assert(b.skip(0) =~= b);
    } else {
        assert forall|k: int| 0 <= k < i - 1 implies a.skip(1)[k] == b.skip(1)[k] by {
            assert(a[k + 1] == b[k + 1]);
        }
        lemma_text_before_skip(a.skip(1), b.skip(1), i - 1);
        assert(a.skip(1).skip(i - 1) =~= a.skip(i));
        assert(b.skip(1).skip(i - 1) =~= b.skip(i));
    }
}

/// Whether `a` comes before `b`.
pub fn is_before(a: &str, b: &str) -> (r: bool)
    ensures
        r == text_before(a@, b@),
{
    let x = chars_of(a);
    let y = chars_of(b);
    let mut i: usize = 0;
    while i < x.len() && i < y.len()
        invariant
            i <= x@.len(),
            i <= y@.len(),
            x@ == a@,
            y@ == b@,
            forall|k: int| 0 <= k < i ==> x@[k] == y@[k],
        decreases x@.len() - i,
    {
        if x[i] != y[i] {
            proof {
                lemma_text_before_skip(x@, y@, i as int);
            }
            return x[i] < y[i];
        }
        i += 1;
    }
    proof {
        lemma_text_before_skip(x@, y@, i as int);
    }
    i < y.len()
}

/// Values with an order in which several may take the same place.
pub trait Ranked: Sized {
    /// `self` may stand before `other`.
    spec fn at_most(self, other: Self) -> bool;

    /// Of any two values one may stand before the other.
    proof fn total(a: Self, b: Self)
        ensures
            a.at_most(b) || b.at_most(a),
    ;

    /// The order is transitive.
    proof fn transitive(a: Self, b: Self, c: Self)
        requires
            a.at_most(b),
            b.at_most(c),
        ensures
            a.at_most(c),
    ;
}

/// Items that are sorted by what they say.
pub trait Sortable: Sized {
    type Key: Ranked;

    /// What the item says.
    spec fn key(self) -> Self::Key;

    /// Whether `self` may stand before `other`.
    fn is_at_most(&self, other: &Self) -> (r: bool)
        ensures
            r == self.key().at_most(other.key()),
    ;
}

/// What the items say.
pub open spec fn keys<T: Sortable>(s: Seq<T>) -> Seq<T::Key> {
    s.map_values(|t: T| t.key())
}

/// Every item may stand before each that follows it.
pub open spec fn in_order<T: Ranked>(s: Seq<T>) -> bool {
    forall|i: int, j: int| 0 <= i < j < s.len() ==> (#[trigger] s[i]).at_most(#[trigger] s[j])
}

/// How many items at the start of `s` may stand before `x`.
pub open spec fn place_of<T: Ranked>(s: Seq<T>, x: T) -> int
    decreases s.len(),
{
    if s.len() == 0 {
        0
    } else if s.last().at_most(x) {
        s.len() as int
    } else {
        place_of(s.drop_last(), x)
    }
}

/// The items in order, with items that may stand in either order left as they came.
pub open spec fn sorted<T: Ranked>(s: Seq<T>) -> Seq<T>
    decreases s.len(),
{
    if s.len() == 0 {
        s
    } else {
        let rest = sorted(s.drop_last());
        rest.insert(place_of(rest, s.last()), s.last())
    }
}

pub proof fn lemma_place_bounds<T: Ranked>(s: Seq<T>, x: T)
    ensures
        0 <= place_of(s, x) <= s.len(),
    decreases s.len(),
{
    if s.len() > 0 && !s.last().at_most(x) {
        lemma_place_bounds(s.drop_last(), x);
    }
}

proof fn lemma_place_splits<T: Ranked>(s: Seq<T>, x: T)
    requires
        in_order(s),
    ensures
        forall|i: int| 0 <= i < place_of(s, x) ==> (#[trigger] s[i]).at_most(x),
        forall|i: int| place_of(s, x) <= i < s.len() ==> x.at_most(#[trigger] s[i]),
    decreases s.len(),
{
    lemma_place_bounds(s, x);
    if s.len() > 0 {
        if s.last().at_most(x) {
            assert forall|i: int| 0 <= i < s.len() implies (#[trigger] s[i]).at_most(x) by {
                if i < s.len() - 1 {
                    T::transitive(s[i], s.last(), x);
                }
            }
        } else {
            assert(in_order(s.drop_last())) by {
                assert forall|i: int, j: int| 0 <= i < j < s.drop_last().len() implies (
                #[trigger] s.drop_last()[i]).at_most(#[trigger] s.drop_last()[j]) by {
                    assert(s[i].at_most(s[j]));
                }
            }
            lemma_place_splits(s.drop_last(), x);
            T::total(s.last(), x);
            assert forall|i: int| 0 <= i < place_of(s, x) implies (#[trigger] s[i]).at_most(x) by {
                assert(s.drop_last()[i].at_most(x));
            }
            assert forall|i: int| place_of(s, x) <= i < s.len() implies x.at_most(
                #[trigger] s[i],
            ) by {
                if i < s.len() - 1 {
                    assert(x.at_most(s.drop_last()[i]));
                }
            }
        }
    }
}

/// Sorting puts the items in order.
pub proof fn law_sorted_is_in_order<T: Ranked>(s: Seq<T>)
    ensures
        in_order(sorted(s)),
    decreases s.len(),
{
    if s.len() > 0 {
        let rest = sorted(s.drop_last());
        let x = s.last();
        let at = place_of(rest, x);
        law_sorted_is_in_order(s.drop_last());
        lemma_place_bounds(rest, x);
        lemma_place_splits(rest, x);
        let all = rest.insert(at, x);
        assert forall|i: int, j: int| 0 <= i < j < all.len() implies (#[trigger] all[i]).at_most(
            #[trigger] all[j],
        ) by {
            let a = if i < at {
                i
            } else {
                i - 1
            };
            let b = if j < at {
                j
            } else {
                j - 1
            };
            if i == at {
                assert(all[j] == rest[b]);
            } else if j == at {
                assert(all[i] == rest[a]);
            } else {
                assert(all[i] == rest[a] && all[j] == rest[b]);
                assert(rest[a].at_most(rest[b]));
            }
        }
    }
}

/// Sorting keeps every item, as often as it occurs.
pub proof fn law_sorted_keeps_items<T: Ranked>(s: Seq<T>)
    ensures
        sorted(s).len() == s.len(),
        sorted(s).to_multiset() == s.to_multiset(),
    decreases s.len(),
{
    broadcast use vstd::seq_lib::group_to_multiset_ensures;

    if s.len() > 0 {
        let rest = sorted(s.drop_last());
        law_sorted_keeps_items(s.drop_last());
        lemma_place_bounds(rest, s.last());
        assert(s =~= s.drop_last().push(s.last()));
        assert(sorted(s).to_multiset() =~= s.to_multiset());
    }
}

/// The items in order, with items that may stand in either order left as they came.
pub fn sort<T: Sortable>(items: Vec<T>) -> (r: Vec<T>)
    ensures
        keys(r@) == sorted(keys(items@)),
{
    let ghost all = items@;
    let mut items = items;
    let mut back: Vec<T> = Vec::new();
    while items.len() > 0
        invariant
            items@ + back@.reverse() == all,
        decreases items@.len(),
    {
        let ghost before = items@;
        let ghost old_back = back@;
        let x = items.pop();
        match x {
            Some(x) => {
                back.push(x);
                proof {
                    assert(before =~= items@.push(x));
                    assert(items@ + back@.reverse() =~= before + old_back.reverse());
                }
            },
            None => {},
        }
    }
    proof {
        assert(back@.reverse() =~= all);
        assert(keys(all).take(0) =~= Seq::empty());
    }
    let mut r: Vec<T> = Vec::new();
    let ghost mut done: int = 0;
    proof {
        assert(keys(r@) =~= sorted(keys(all).take(0)));
        assert(all.skip(0) =~= all);
    }
    while back.len() > 0
        invariant
            0 <= done <= all.len(),
            done + back@.len() == all.len(),
            back@.reverse() == all.skip(done),
            keys(r@) == sorted(keys(all).take(done)),
        decreases back@.len(),
    {
        let ghost before = back@;
        let x = back.pop();
        match x {
            Some(x) => {
                let ghost so_far = keys(r@);
                proof {
                    assert(before.reverse()[0] == x);
                    assert(all.skip(done)[0] == all[done]);
                    assert(back@.reverse() =~= before.reverse().skip(1));
                    assert(all.skip(done).skip(1) =~= all.skip(done + 1));
                    assert(keys(all).take(done + 1).drop_last() =~= keys(all).take(done));
                    assert(keys(all).take(done + 1).last() == x.key());
                    assert(so_far.take(so_far.len() as int) =~= so_far);
                }
                let mut at: usize = r.len();
                while at > 0 && !r[at - 1].is_at_most(&x)
                    invariant
                        at <= r@.len(),
                        so_far == keys(r@),
                        place_of(so_far, x.key()) == place_of(so_far.take(at as int), x.key()),
                    decreases at,
                {
                    proof {
                        assert(so_far.take(at as int).drop_last() =~= so_far.take(at - 1));
                        assert(so_far.take(at as int).last() == r@[at - 1].key());
                    }
                    at -= 1;
                }
                proof {
                    if at > 0 {
                        assert(so_far.take(at as int).last() == r@[at - 1].key());
                    }
                }
                r.insert(at, x);
                proof {
                    assert(keys(r@) =~= so_far.insert(at as int, x.key()));
                    done = done + 1;
                }
            },
            None => {},
        }
    }
    proof {
        assert(keys(all).take(all.len() as int) =~= keys(all));
    }
    r
}

impl Ranked for Seq<char> {
    open spec fn at_most(self, other: Self) -> bool {
        text_le(self, other)
    }

    proof fn total(a: Self, b: Self) {
        lemma_text_before_total(a, b);
    }

    proof fn transitive(a: Self, b: Self, c: Self) {
        lemma_text_le_transitive(a, b, c);
    }
}

impl Sortable for String {
    type Key = Seq<char>;

    open spec fn key(self) -> Seq<char> {
        self@
    }

    fn is_at_most(&self, other: &Self) -> (r: bool) {
        proof {
            lemma_text_before_total(self@, other@);
            lemma_text_before_irreflexive(self@);
            if text_before(self@, other@) && text_before(other@, self@) {
                lemma_text_before_transitive(self@, other@, self@);
            }
        }
        !is_before(other.as_str(), self.as_str())
    }
}

/// Texts in order, each once.
pub open spec fn ordered_set(texts: Seq<Seq<char>>) -> Seq<Seq<char>> {
    sorted(distinct(texts))
}

/// Texts in order, each once.
pub fn sort_unique(texts: Vec<String>) -> (r: Vec<String>)
    ensures
        views(r@) == ordered_set(views(texts@)),
{
    let mut texts = texts;
    deduplicate_preserving_order(&mut texts);
    let ghost before = texts@;
    let r = sort(texts);
    proof {
        assert(keys(before) =~= views(before));
        assert(keys(r@) =~= views(r@));
    }
    r
}

// ---------------------------------------------------------------------------
// What holds of it
// ---------------------------------------------------------------------------

/// A set of texts in order holds each text once, and every text that there is.
pub proof fn law_ordered_set(texts: Seq<Seq<char>>)
    ensures
        in_order(ordered_set(texts)),
        ordered_set(texts).no_duplicates(),
        forall|t: Seq<char>| #[trigger] ordered_set(texts).contains(t) <==> texts.contains(t),
{
    let once = distinct(texts);
    let s = sorted(once);
    crate::list::law_distinct(texts);
    law_sorted_is_in_order(once);
    law_sorted_keeps_items(once);
    once.to_multiset_ensures();
    s.to_multiset_ensures();
    once.lemma_multiset_has_no_duplicates();
    s.lemma_multiset_has_no_duplicates_conv();
    assert forall|t: Seq<char>| #[trigger] s.contains(t) <==> texts.contains(t) by {
        assert(s.contains(t) <==> s.to_multiset().count(t) > 0);
        assert(once.contains(t) <==> once.to_multiset().count(t) > 0);
    }
}

/// A text stands before another exactly if the first place in which they differ has the
/// smaller character, or if it is a beginning of the other.
pub proof fn law_text_order(a: Seq<char>, b: Seq<char>)
    ensures
        text_before(a, b) <==> exists|n: int|
            0 <= n <= a.len() && n < b.len() && #[trigger] a.take(n) == b.take(n) && (n == a.len()
                || a[n] < b[n]),
    decreases a.len(),
{
    if a.len() > 0 && b.len() > 0 && a[0] == b[0] {
        let x = a.skip(1);
        let y = b.skip(1);
        law_text_order(x, y);
        if text_before(x, y) {
            let n = choose|n: int|
                0 <= n <= x.len() && n < y.len() && #[trigger] x.take(n) == y.take(n) && (n
                    == x.len() || x[n] < y[n]);
            assert(a.take(n + 1) =~= seq![a[0]] + x.take(n));
            assert(b.take(n + 1) =~= seq![b[0]] + y.take(n));
        }
        if exists|n: int|
            0 <= n <= a.len() && n < b.len() && #[trigger] a.take(n) == b.take(n) && (n == a.len()
                || a[n] < b[n]) {
            let n = choose|n: int|
                0 <= n <= a.len() && n < b.len() && #[trigger] a.take(n) == b.take(n) && (n
                    == a.len() || a[n] < b[n]);
            assert(n > 0);
            assert(x.take(n - 1) =~= a.take(n).skip(1));
            assert(y.take(n - 1) =~= b.take(n).skip(1));
        }
    } else if a.len() == 0 && b.len() > 0 {
        assert(a.take(0) =~= b.take(0));
    } else if a.len() > 0 && b.len() > 0 {
        assert(a.take(0) =~= b.take(0));
        assert forall|n: int|
            0 <= n <= a.len() && n < b.len() && #[trigger] a.take(n) == b.take(n) && (n == a.len()
                || a[n] < b[n]) implies a[0] < b[0] by {
            if n > 0 {
                assert(a.take(n)[0] == b.take(n)[0]);
            }
        }
    }
}

} // verus!
