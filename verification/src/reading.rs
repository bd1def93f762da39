//! Reading records out of JSON documents.
use vstd::prelude::*;

use crate::json::{items_at, json_views, unsigned_at, Json, JsonView};

verus! {

/// What a result says, with a text for the failure.
pub open spec fn result_view<T: View>(r: Result<T, String>) -> Result<T::V, Seq<char>> {
    match r {
        Ok(v) => Ok(v@),
        Err(e) => Err(e@),
    }
}

/// Records that are read out of a JSON value.
pub trait ReadJson: Sized {
    /// What a record says.
    type Out;

    /// What the record says.
    spec fn out(self) -> Self::Out;

    /// What the record in a value says, or why there is none.
    spec fn read(v: JsonView) -> Result<Self::Out, Seq<char>>;

    /// The record in a value, or why there is none.
    fn read_record(v: &Json) -> (r: Result<Self, String>)
        ensures
            match r {
                Ok(x) => Self::read(v@) == Ok::<Self::Out, Seq<char>>(x.out()),
                Err(e) => Self::read(v@) == Err::<Self::Out, Seq<char>>(e@),
            },
    ;
}

/// What records say.
pub open spec fn outs<T: ReadJson>(s: Seq<T>) -> Seq<T::Out> {
    s.map_values(|t: T| t.out())
}

/// What the records in the first `upto` values say, or why one of them has none.
pub open spec fn records_upto<T: ReadJson>(items: Seq<JsonView>, upto: int) -> Result<
    Seq<T::Out>,
    Seq<char>,
>
    decreases upto,
{
    if upto <= 0 {
        Ok(Seq::empty())
    } else {
        match records_upto::<T>(items, upto - 1) {
            Err(e) => Err(e),
            Ok(s) => match T::read(items[upto - 1]) {
                Err(e) => Err(e),
                Ok(x) => Ok(s.push(x)),
            },
        }
    }
}

/// What the records in a list of values say, or why one of them has none.
pub open spec fn records<T: ReadJson>(items: Seq<JsonView>) -> Result<Seq<T::Out>, Seq<char>> {
    records_upto::<T>(items, items.len() as int)
}

proof fn lemma_failed_records<T: ReadJson>(items: Seq<JsonView>, n: int, m: int)
    requires
        0 <= n <= m,
        records_upto::<T>(items, n) is Err,
    ensures
        records_upto::<T>(items, m) == records_upto::<T>(items, n),
    decreases m - n,
{
    if n < m {
        lemma_failed_records::<T>(items, n, m - 1);
    }
}

/// The records in a list of values, or why one of them has none.
pub fn read_records<T: ReadJson>(items: &Vec<Json>) -> (r: Result<Vec<T>, String>)
    ensures
        match r {
            Ok(v) => records::<T>(json_views(items@)) == Ok::<Seq<T::Out>, Seq<char>>(outs(v@)),
            Err(e) => records::<T>(json_views(items@)) == Err::<Seq<T::Out>, Seq<char>>(e@),
        },
{
    let ghost all = json_views(items@);
    let mut found: Vec<T> = Vec::new();
    let mut i: usize = 0;
    proof {
        assert(outs(found@) =~= Seq::empty());
    }
    while i < items.len()
        invariant
            i <= items@.len(),
            all == json_views(items@),
            all.len() == items@.len(),
            records_upto::<T>(all, i as int) == Ok::<Seq<T::Out>, Seq<char>>(outs(found@)),
        decreases items@.len() - i,
    {
        let ghost before = found@;
        proof {
            assert(all[i as int] == items@[i as int]@);
        }
        match T::read_record(&items[i]) {
            Ok(x) => {
                found.push(x);
                proof {
                    assert(outs(found@) =~= outs(before).push(x.out()));
                }
            },
            Err(e) => {
                proof {
                    lemma_failed_records::<T>(all, i + 1, all.len() as int);
                }
                return Err(e);
            },
        }
        i += 1;
    }
    Ok(found)
}

/// What the records of a page say: those in its list `field`.
pub open spec fn page_records<T: ReadJson>(
    page: JsonView,
    field: Seq<char>,
    missing: Seq<char>,
) -> Result<Seq<T::Out>, Seq<char>> {
    match items_at(page, field) {
        Some(items) => records::<T>(items),
        None => Err(missing),
    }
}

/// What the records of the first `upto` pages say, or why one of them has none.
pub open spec fn pages_upto<T: ReadJson>(
    pages: Seq<JsonView>,
    field: Seq<char>,
    missing: Seq<char>,
    upto: int,
) -> Result<Seq<T::Out>, Seq<char>>
    decreases upto,
{
    if upto <= 0 {
        Ok(Seq::empty())
    } else {
        match pages_upto::<T>(pages, field, missing, upto - 1) {
            Err(e) => Err(e),
            Ok(s) => match page_records::<T>(pages[upto - 1], field, missing) {
                Err(e) => Err(e),
                Ok(more) => Ok(s + more),
            },
        }
    }
}

/// The pages of a reply: the values of a list, or the one value.
pub open spec fn pages_of(v: JsonView) -> Seq<JsonView> {
    match v.items() {
        Some(items) => items,
        None => seq![v],
    }
}

/// What the records of a reply in pages say, or why it has none.
pub open spec fn paged_records<T: ReadJson>(
    reply: Option<JsonView>,
    field: Seq<char>,
    unreadable: Seq<char>,
    missing: Seq<char>,
) -> Result<Seq<T::Out>, Seq<char>> {
    match reply {
        None => Err(unreadable),
        Some(v) => pages_upto::<T>(pages_of(v), field, missing, pages_of(v).len() as int),
    }
}

proof fn lemma_failed_pages<T: ReadJson>(
    pages: Seq<JsonView>,
    field: Seq<char>,
    missing: Seq<char>,
    n: int,
    m: int,
)
    requires
        0 <= n <= m,
        pages_upto::<T>(pages, field, missing, n) is Err,
    ensures
        pages_upto::<T>(pages, field, missing, m) == pages_upto::<T>(pages, field, missing, n),
    decreases m - n,
{
    if n < m {
        lemma_failed_pages::<T>(pages, field, missing, n, m - 1);
    }
}

fn read_page<T: ReadJson>(page: &Json, field: &str, missing: &str) -> (r: Result<Vec<T>, String>)
    ensures
        match r {
            Ok(v) => page_records::<T>(page@, field@, missing@) == Ok::<Seq<T::Out>, Seq<char>>(
                outs(v@),
            ),
            Err(e) => page_records::<T>(page@, field@, missing@) == Err::<Seq<T::Out>, Seq<char>>(
                e@,
            ),
        },
{
    match page.list_at(field) {
        Some(items) => read_records::<T>(items),
        None => Err(missing.to_owned()),
    }
}

/// The records of a reply in pages, or why it has none.
pub fn read_pages<T: ReadJson>(
    reply: &Json,
    field: &str,
    unreadable: &str,
    missing: &str,
) -> (r: Result<Vec<T>, String>)
    ensures
        match r {
            Ok(v) => paged_records::<T>(Some(reply@), field@, unreadable@, missing@) == Ok::<
                Seq<T::Out>,
                Seq<char>,
            >(outs(v@)),
            Err(e) => paged_records::<T>(Some(reply@), field@, unreadable@, missing@) == Err::<
                Seq<T::Out>,
                Seq<char>,
            >(e@),
        },
{
    match reply.as_list() {
        Some(pages) => {
            let ghost all = json_views(pages@);
            let mut found: Vec<T> = Vec::new();
            let mut i: usize = 0;
            proof {
                assert(outs(found@) =~= Seq::empty());
            }
            while i < pages.len()
                invariant
                    i <= pages@.len(),
                    all == json_views(pages@),
                    all.len() == pages@.len(),
                    reply@.items() == Some(all),
                    pages_upto::<T>(all, field@, missing@, i as int) == Ok::<
                        Seq<T::Out>,
                        Seq<char>,
                    >(outs(found@)),
                decreases pages@.len() - i,
            {
                let ghost before = outs(found@);
                proof {
                    assert(all[i as int] == pages@[i as int]@);
                }
                match read_page::<T>(&pages[i], field, missing) {
                    Ok(more) => {
                        let ghost added = outs(more@);
                        let mut more = more;
                        found.append(&mut more);
                        proof {
                            assert(outs(found@) =~= before + added);
                        }
                    },
                    Err(e) => {
                        proof {
                            lemma_failed_pages::<T>(
                                all,
                                field@,
                                missing@,
                                i + 1,
                                all.len() as int,
                            );
                        }
                        return Err(e);
                    },
                }
                i += 1;
            }
            Ok(found)
        },
        None => {
            let r = read_page::<T>(reply, field, missing);
            proof {
                let all = seq![reply@];
                assert(pages_upto::<T>(all, field@, missing@, 0) == Ok::<Seq<T::Out>, Seq<char>>(
                    Seq::empty(),
                ));
                if r is Ok {
                    assert(Seq::<T::Out>::empty() + outs(r->Ok_0@) =~= outs(r->Ok_0@));
                }
            }
            r
        },
    }
}

/// The unsigned integers that the values have at a path, where they have one.
pub open spec fn numbers_at(items: Seq<JsonView>, path: Seq<char>) -> Seq<u64>
    decreases items.len(),
{
    if items.len() == 0 {
        Seq::empty()
    } else {
        let rest = numbers_at(items.drop_last(), path);
        match unsigned_at(items.last(), path) {
            Some(n) => rest.push(n),
            None => rest,
        }
    }
}

/// The unsigned integers that the values have at a path, where they have one.
pub fn collect_numbers(items: &Vec<Json>, path: &str) -> (r: Vec<u64>)
    ensures
        r@ == numbers_at(json_views(items@), path@),
{
    let ghost all = json_views(items@);
    let mut r: Vec<u64> = Vec::new();
    let mut i: usize = 0;
    while i < items.len()
        invariant
            i <= items@.len(),
            all == json_views(items@),
            r@ == numbers_at(all.take(i as int), path@),
        decreases items@.len() - i,
    {
        proof {
            assert(all.take(i + 1).drop_last() =~= all.take(i as int));
            assert(all.take(i + 1).last() == items@[i as int]@);
        }
        if let Some(n) = items[i].u64_at(path) {
            r.push(n);
        }
        i += 1;
    }
    proof {
        assert(all.take(all.len() as int) =~= all);
    }
    r
}

// ---------------------------------------------------------------------------
// What holds of it
// ---------------------------------------------------------------------------

/// Entries are read one by one, and the first that cannot be read is an error.
pub proof fn law_entries_are_read_one_by_one<T: ReadJson>(items: Seq<JsonView>, n: int)
    requires
        0 < n <= items.len(),
    ensures
        records_upto::<T>(items, 0) == Ok::<Seq<T::Out>, Seq<char>>(Seq::empty()),
        records_upto::<T>(items, n - 1) matches Err(e) ==> records_upto::<T>(items, n) == Err::<
            Seq<T::Out>,
            Seq<char>,
        >(e),
        records_upto::<T>(items, n - 1) matches Ok(s) ==> (T::read(items[n - 1]) matches Ok(x)
            ==> records_upto::<T>(items, n) == Ok::<Seq<T::Out>, Seq<char>>(s.push(x))),
        records_upto::<T>(items, n - 1) matches Ok(s) ==> (T::read(items[n - 1]) matches Err(e)
            ==> records_upto::<T>(items, n) == Err::<Seq<T::Out>, Seq<char>>(e)),
{
}

/// Entries are read exactly if each can be, and none is lost.
pub proof fn law_all_entries_are_read<T: ReadJson>(items: Seq<JsonView>, n: int)
    requires
        0 <= n <= items.len(),
    ensures
        records_upto::<T>(items, n) is Ok <==> forall|i: int|
            0 <= i < n ==> T::read(#[trigger] items[i]) is Ok,
        records_upto::<T>(items, n) matches Ok(s) ==> s.len() == n && forall|i: int|
            #![trigger items[i]]
            0 <= i < n ==> T::read(items[i]) == Ok::<T::Out, Seq<char>>(s[i]),
    decreases n,
{
    if n > 0 {
        law_all_entries_are_read::<T>(items, n - 1);
    }
}

/// Pages are read one by one, and what they hold is put together in their order.
pub proof fn law_pages_are_read_one_by_one<T: ReadJson>(
    pages: Seq<JsonView>,
    field: Seq<char>,
    missing: Seq<char>,
    n: int,
)
    requires
        0 < n <= pages.len(),
    ensures
        pages_upto::<T>(pages, field, missing, 0) == Ok::<Seq<T::Out>, Seq<char>>(Seq::empty()),
        items_at(pages[n - 1], field) is None ==> pages_upto::<T>(pages, field, missing, n) is Err,
        items_at(pages[n - 1], field) matches Some(items) ==> (pages_upto::<T>(
            pages,
            field,
            missing,
            n - 1,
        ) matches Ok(s) ==> (records::<T>(items) matches Ok(more) ==> pages_upto::<T>(
            pages,
            field,
            missing,
            n,
        ) == Ok::<Seq<T::Out>, Seq<char>>(s + more))),
        pages_upto::<T>(pages, field, missing, n - 1) is Err ==> pages_upto::<T>(
            pages,
            field,
            missing,
            n,
        ) is Err,
{
}

/// The numbers of entries, in their order; entries without one have none.
pub proof fn law_numbers_of_entries(items: Seq<JsonView>, item: JsonView, path: Seq<char>)
    ensures
        numbers_at(Seq::empty(), path).len() == 0,
        unsigned_at(item, path) matches Some(n) ==> numbers_at(items.push(item), path)
            == numbers_at(items, path).push(n),
        unsigned_at(item, path) is None ==> numbers_at(items.push(item), path) == numbers_at(
            items,
            path,
        ),
{
    assert(items.push(item).drop_last() =~= items);
}

} // verus!
