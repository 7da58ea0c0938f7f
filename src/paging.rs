use crate::catalog::{lookup, BookMap};
use crate::model::{declared_total, is_hadith_of, Book, Hadith, HadithPagination, HadithRow};
use vstd::prelude::*;

verus! {

/// Why a page could not be served.
#[derive(Debug, PartialEq, Eq)]
pub enum PageError {
    /// No book of the catalog has the slug asked for.
    NotFound,
    /// The offset or the limit asked for is negative.
    InvalidBounds,
    /// The offset or the limit asked for is not an `i32` written in decimal.
    Malformed,
    /// The store's round trip failed, with the store's message.
    Store(String),
    /// The store answered with rows that are not an ordered window of at most
    /// `limit` rows.
    StoreWindow,
}

/// A resolved page request: the book whose hadiths are asked for, and the
/// window, to be fetched from the store ordered by number.
pub struct PagePlan {
    pub book: Book,
    pub offset: i32,
    pub limit: i32,
}

/// What resolving a request for the page of `slug` at `offset` and `limit`
/// against `catalog` gives: the book and the window where the slug is known
/// and the bounds are not negative, else the error that says which failed.
pub open spec fn planned(
    catalog: Map<Seq<char>, Book>,
    slug: Seq<char>,
    offset: i32,
    limit: i32,
    r: Result<PagePlan, PageError>,
) -> bool {
    match lookup(catalog, slug) {
        None => r == Err::<PagePlan, PageError>(PageError::NotFound),
        Some(book) => if offset < 0 || limit < 0 {
            r == Err::<PagePlan, PageError>(PageError::InvalidBounds)
        } else {
            r == Ok::<PagePlan, PageError>(PagePlan { book, offset, limit })
        },
    }
}

/// `rows` is a window of at most `limit` rows ordered by strictly increasing
/// number.
pub open spec fn is_window(rows: Seq<HadithRow>, limit: i32) -> bool {
    &&& rows.len() <= limit
    &&& forall|i: int, j: int| 0 <= i < j < rows.len() ==> rows[i].number < rows[j].number
}

/// `page` is the page of `plan`'s book made from the store rows `rows`: the
/// book, one hadith for each row in the same order, the bounds as asked, and
/// the book's declared total.
pub open spec fn is_page_of(plan: PagePlan, rows: Seq<HadithRow>, page: HadithPagination) -> bool {
    &&& page.book == plan.book
    &&& page.limit == plan.limit
    &&& page.offset == plan.offset
    &&& page.total == declared_total(plan.book)
    &&& page.items@.len() == rows.len()
    &&& forall|i: int| #![trigger page.items@[i]]
        0 <= i < rows.len() ==> is_hadith_of(page.items@[i], rows[i], plan.book)
}

/// What assembling the page of `plan` from the store's answer `fetched`
/// gives: the store's error as it came, an error where the rows are no
/// window of the plan, else the page of those rows.
pub open spec fn assembled(
    plan: PagePlan,
    fetched: Result<Vec<HadithRow>, String>,
    r: Result<HadithPagination, PageError>,
) -> bool {
    match fetched {
        Err(m) => r == Err::<HadithPagination, PageError>(PageError::Store(m)),
        Ok(rows) => if is_window(rows@, plan.limit) {
            r matches Ok(page) && is_page_of(plan, rows@, page)
        } else {
            r == Err::<HadithPagination, PageError>(PageError::StoreWindow)
        },
    }
}

impl Book {
    /// Resolves a request for a page of the book `slug`: the book from the
    /// catalog and the window to fetch. An unknown slug is an error before
    /// any bound is looked at, and no window is then fetched.
    pub fn plan_page(books: &BookMap, slug: &str, offset: i32, limit: i32) -> (r: Result<
        PagePlan,
        PageError,
    >)
        requires
            books.wf(),
        ensures
            planned(books@, slug@, offset, limit, r),
    {
        match books.find(slug) {
            None => Err(PageError::NotFound),
            Some(book) => {
                if offset < 0 || limit < 0 {
                    Err(PageError::InvalidBounds)
                } else {
                    Ok(PagePlan { book, offset, limit })
                }
            },
        }
    }

    /// Assembles the page of `plan` from the store's answer to the window
    /// query: each row gets the book's slug and name, and the page carries
    /// the book, the bounds as asked and the book's declared total.
    pub fn find_by_slug(plan: &PagePlan, fetched: Result<Vec<HadithRow>, String>) -> (r: Result<
        HadithPagination,
        PageError,
    >)
        ensures
            assembled(*plan, fetched, r),
    {
        match fetched {
            Err(m) => Err(PageError::Store(m)),
            Ok(rows) => {
                if !window_fits(&rows, plan.limit) {
                    return Err(PageError::StoreWindow);
                }
                let mut items: Vec<Hadith> = Vec::new();
                let mut k: usize = 0;
                while k < rows.len()
                    invariant
                        k <= rows@.len(),
                        items@.len() == k,
                        forall|i: int| #![trigger items@[i]]
                            0 <= i < k ==> is_hadith_of(items@[i], rows@[i], plan.book),
                    decreases rows@.len() - k,
                {
                    let row = &rows[k];
                    items.push(
                        Hadith {
                            number: row.number,
                            indonesian: row.indonesian.clone(),
                            arabic: row.arabic.clone(),
                            book_slug: plan.book.slug.clone(),
                            book_name: plan.book.name.clone(),
                        },
                    );
                    k = k + 1;
                }
                Ok(
                    HadithPagination {
                        book: plan.book.clone(),
                        items,
                        limit: plan.limit,
                        offset: plan.offset,
                        total: plan.book.total(),
                    },
                )
            },
        }
    }
}

/// Whether `rows` is a window of at most `limit` rows in strictly increasing
/// order of number.
fn window_fits(rows: &Vec<HadithRow>, limit: i32) -> (r: bool)
    ensures
        r == is_window(rows@, limit),
{
    if limit < 0 || rows.len() > limit as usize {
        return false;
    }
    let mut k: usize = 1;
    while k < rows.len()
        invariant
            1 <= k,
            forall|i: int, j: int|
                0 <= i < j < k && j < rows@.len() ==> rows@[i].number < rows@[j].number,
        decreases rows@.len() - k,
    {
        if rows[k - 1].number >= rows[k].number {
            assert(!is_window(rows@, limit));
            return false;
        }
        k = k + 1;
    }
    true
}

/// A page holds at most `limit` hadiths, in strictly increasing order of
/// number.
pub proof fn lemma_page_is_bounded_and_ordered(
    plan: PagePlan,
    fetched: Result<Vec<HadithRow>, String>,
    page: HadithPagination,
)
    requires
        assembled(plan, fetched, Ok(page)),
    ensures
        page.items@.len() <= plan.limit,
        forall|i: int, j: int|
            0 <= i < j < page.items@.len() ==> page.items@[i].number < page.items@[j].number,
{
    let rows = fetched->Ok_0@;
    assert forall|i: int, j: int| 0 <= i < j < page.items@.len() implies page.items@[i].number
        < page.items@[j].number by {
        assert(is_hadith_of(page.items@[i], rows[i], plan.book));
        assert(is_hadith_of(page.items@[j], rows[j], plan.book));
    }
}

/// Where the store has no row in the window of a resolved request (an
/// offset past the book's last hadith), the page holds no hadith but still
/// the book and its declared total.
pub proof fn lemma_empty_window_keeps_book_and_total(
    catalog: Map<Seq<char>, Book>,
    slug: Seq<char>,
    offset: i32,
    limit: i32,
    plan: PagePlan,
    rows: Vec<HadithRow>,
    r: Result<HadithPagination, PageError>,
)
    requires
        planned(catalog, slug, offset, limit, Ok(plan)),
        rows@.len() == 0,
        assembled(plan, Ok(rows), r),
    ensures
        r matches Ok(page) && page.items@.len() == 0 && page.book == catalog[slug] && page.total
            == declared_total(catalog[slug]) && page.offset == offset && page.limit == limit,
{
}

/// A slug that the catalog does not hold gives `NotFound`, whatever the
/// bounds, and no plan to fetch a window with.
pub proof fn lemma_unknown_slug_is_not_found(
    catalog: Map<Seq<char>, Book>,
    slug: Seq<char>,
    offset: i32,
    limit: i32,
    r: Result<PagePlan, PageError>,
)
    requires
        !catalog.contains_key(slug),
        planned(catalog, slug, offset, limit, r),
    ensures
        r == Err::<PagePlan, PageError>(PageError::NotFound),
{
}

/// Asking twice for the same page of an unchanged catalog and store gives
/// the same answer: the same plan, and then the same page or the same error.
pub proof fn lemma_page_is_repeatable(
    catalog: Map<Seq<char>, Book>,
    slug: Seq<char>,
    offset: i32,
    limit: i32,
    fetched: Result<Vec<HadithRow>, String>,
    plan1: Result<PagePlan, PageError>,
    plan2: Result<PagePlan, PageError>,
    r1: Result<HadithPagination, PageError>,
    r2: Result<HadithPagination, PageError>,
)
    requires
        planned(catalog, slug, offset, limit, plan1),
        planned(catalog, slug, offset, limit, plan2),
        plan1 matches Ok(p) ==> assembled(p, fetched, r1) && assembled(p, fetched, r2),
    ensures
        plan1 == plan2,
        plan1 is Ok ==> match (r1, r2) {
            (Ok(a), Ok(b)) => a.book == b.book && a.items@ == b.items@ && a.limit == b.limit
                && a.offset == b.offset && a.total == b.total,
            (Err(a), Err(b)) => a == b,
            _ => false,
        },
{
    if plan1 is Ok {
        let p = plan1->Ok_0;
        if let Ok(rows) = fetched {
            if is_window(rows@, p.limit) {
                let a = r1->Ok_0;
                let b = r2->Ok_0;
                assert forall|i: int| 0 <= i < a.items@.len() implies a.items@[i] == b.items@[i] by {
                    assert(is_hadith_of(a.items@[i], rows@[i], p.book));
                    assert(is_hadith_of(b.items@[i], rows@[i], p.book));
                }
                assert(a.items@ =~= b.items@);
            }
        }
    }
}

} // verus!
