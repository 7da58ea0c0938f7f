use crate::model::Book;
use vstd::hash_map::StringHashMap;
use vstd::prelude::*;

verus! {

/// The catalog that loading the books `rows` in order gives: each slug maps
/// to the last book loaded under it.
pub open spec fn catalog_of(rows: Seq<Book>) -> Map<Seq<char>, Book>
    decreases rows.len(),
{
    if rows.len() == 0 {
        Map::empty()
    } else {
        catalog_of(rows.drop_last()).insert(rows.last().slug@, rows.last())
    }
}

/// `books` is sorted by id, ascending.
pub open spec fn sorted_by_id(books: Seq<Book>) -> bool {
    forall|i: int, j: int| 0 <= i < j < books.len() ==> books[i].id <= books[j].id
}

/// The in-memory catalog: each book reachable by its slug, built once and
/// only read afterwards.
pub struct BookMap {
    /// Where each slug's book stands in `entries`.
    positions: StringHashMap<usize>,
    /// The books, one for each slug, in the order in which they were first
    /// loaded.
    entries: Vec<Book>,
}

impl View for BookMap {
    type V = Map<Seq<char>, Book>;

    closed spec fn view(&self) -> Map<Seq<char>, Book> {
        Map::new(
            |s: Seq<char>| self.positions@.contains_key(s),
            |s: Seq<char>| self.entries@[self.positions@[s] as int],
        )
    }
}

impl BookMap {
    /// Each slug of the catalog is the slug of its book, and each book stands
    /// in `entries` at the place that its slug's position names.
    pub closed spec fn wf(&self) -> bool {
        &&& forall|s: Seq<char>| #[trigger]
            self.positions@.contains_key(s) ==> {
                &&& self.positions@[s] < self.entries@.len()
                &&& self.entries@[self.positions@[s] as int].slug@ == s
            }
        &&& forall|i: int| #![trigger self.entries@[i]]
            0 <= i < self.entries@.len() ==> {
                &&& self.positions@.contains_key(self.entries@[i].slug@)
                &&& self.positions@[self.entries@[i].slug@] == i
            }
    }

    /// An empty catalog.
    pub fn new() -> (r: BookMap)
        ensures
            r.wf(),
            r@ == Map::<Seq<char>, Book>::empty(),
    {
        let r = BookMap { positions: StringHashMap::new(), entries: Vec::new() };
        assert(r@ =~= Map::<Seq<char>, Book>::empty());
        r
    }

    /// Adds `book` under its slug, in place of any book held under it.
    pub fn insert(&mut self, book: Book)
        requires
            old(self).wf(),
        ensures
            final(self).wf(),
            final(self)@ == old(self)@.insert(book.slug@, book),
    {
        match self.positions.get(book.slug.as_str()) {
            Some(p) => {
                let p: usize = *p;
                self.entries.set(p, book);
            },
            None => {
                let p: usize = self.entries.len();
                self.positions.insert(book.slug.clone(), p);
                self.entries.push(book);
            },
        }
        assert(self@ =~= old(self)@.insert(book.slug@, book));
    }

    /// The catalog of the books `rows`, read from the store in order of id;
    /// a slug that occurs twice keeps its last book.
    pub fn load(rows: &Vec<Book>) -> (r: BookMap)
        ensures
            r.wf(),
            r@ == catalog_of(rows@),
    {
        let mut r = BookMap::new();
        let mut k: usize = 0;
        while k < rows.len()
            invariant
                k <= rows@.len(),
                r.wf(),
                r@ == catalog_of(rows@.subrange(0, k as int)),
            decreases rows@.len() - k,
        {
            r.insert(rows[k].clone());
            assert(rows@.subrange(0, k + 1).drop_last() =~= rows@.subrange(0, k as int));
            k = k + 1;
        }
        assert(rows@.subrange(0, k as int) =~= rows@);
        r
    }

    /// The book whose slug is exactly `slug`, if the catalog holds one.
    pub fn find(&self, slug: &str) -> (r: Option<Book>)
        requires
            self.wf(),
        ensures
            r == lookup(self@, slug@),
    {
        match self.positions.get(slug) {
            Some(p) => Some(self.entries[*p].clone()),
            None => None,
        }
    }

    /// The entries list the catalog.
    proof fn lemma_entries_list_catalog(&self)
        requires
            self.wf(),
        ensures
            lists_catalog(self.entries@, self@),
    {
        let c = self@;
        let b = self.entries@;
        assert forall|s: Seq<char>| c.contains_key(s) implies exists|i: int|
            0 <= i < b.len() && b[i] == c[s] by {
            let i = self.positions@[s] as int;
            assert(b[i] == c[s]);
        }
    }
}

/// The book held under `slug` in `catalog`, if any.
pub open spec fn lookup(catalog: Map<Seq<char>, Book>, slug: Seq<char>) -> Option<Book> {
    if catalog.contains_key(slug) {
        Some(catalog[slug])
    } else {
        None
    }
}

/// `list` holds the books of `catalog`, each once: each is the catalog's
/// book under its own slug, no slug comes twice, and none is missing.
pub open spec fn lists_catalog(list: Seq<Book>, catalog: Map<Seq<char>, Book>) -> bool {
    &&& forall|i: int| #![trigger list[i]]
        0 <= i < list.len() ==> catalog.contains_key(list[i].slug@) && catalog[list[i].slug@]
            == list[i]
    &&& forall|i: int, j: int| 0 <= i < j < list.len() ==> list[i].slug@ != list[j].slug@
    &&& forall|s: Seq<char>| #[trigger]
        catalog.contains_key(s) ==> exists|i: int| 0 <= i < list.len() && list[i] == catalog[s]
}

/// A reordering of a list of a catalog's books lists the catalog too.
proof fn lemma_permutation_lists_catalog(
    list: Seq<Book>,
    other: Seq<Book>,
    catalog: Map<Seq<char>, Book>,
)
    requires
        lists_catalog(list, catalog),
        other.to_multiset() == list.to_multiset(),
    ensures
        lists_catalog(other, catalog),
{
    broadcast use vstd::seq_lib::group_to_multiset_ensures;

    assert(list.no_duplicates()) by {
        assert forall|i: int, j: int| 0 <= i < list.len() && 0 <= j < list.len() && i != j implies list[i]
            != list[j] by {
            if i < j {
                assert(list[i].slug@ != list[j].slug@);
            } else {
                assert(list[j].slug@ != list[i].slug@);
            }
        }
    }
    list.lemma_multiset_has_no_duplicates();
    other.lemma_multiset_has_no_duplicates_conv();
    assert forall|i: int| #![trigger other[i]] 0 <= i < other.len() implies catalog.contains_key(
        other[i].slug@,
    ) && catalog[other[i].slug@] == other[i] by {
        assert(other.to_multiset().count(other[i]) > 0);
        assert(list.contains(other[i]));
        let j = choose|j: int| 0 <= j < list.len() && list[j] == other[i];
        assert(list[j] == other[i]);
    }
    assert forall|i: int, j: int| 0 <= i < j < other.len() implies other[i].slug@
        != other[j].slug@ by {
        if other[i].slug@ == other[j].slug@ {
            assert(catalog[other[i].slug@] == other[i]);
            assert(catalog[other[j].slug@] == other[j]);
        }
    }
    assert forall|s: Seq<char>| #[trigger] catalog.contains_key(s) implies exists|i: int|
        0 <= i < other.len() && other[i] == catalog[s] by {
        let j = choose|j: int| 0 <= j < list.len() && list[j] == catalog[s];
        assert(list.contains(list[j]));
        assert(list.to_multiset().count(list[j]) > 0);
        assert(other.contains(catalog[s]));
    }
}

impl Book {
    /// All books of the catalog, each once, sorted by id, ascending.
    pub fn find_all(books: &BookMap) -> (r: Vec<Book>)
        requires
            books.wf(),
        ensures
            sorted_by_id(r@),
            lists_catalog(r@, books@),
    {
        broadcast use vstd::seq_lib::to_multiset_insert, vstd::seq_lib::group_to_multiset_ensures;

        let ghost src = books.entries@;
        let mut out: Vec<Book> = Vec::new();
        let mut k: usize = 0;
        while k < books.entries.len()
            invariant
                src == books.entries@,
                k <= src.len(),
                sorted_by_id(out@),
                out@.to_multiset() == src.subrange(0, k as int).to_multiset(),
            decreases src.len() - k,
        {
            let e = books.entries[k].clone();
            let mut pos: usize = 0;
            while pos < out.len() && out[pos].id <= e.id
                invariant
                    pos <= out@.len(),
                    forall|i: int| 0 <= i < pos ==> out@[i].id <= e.id,
                decreases out@.len() - pos,
            {
                pos = pos + 1;
            }
            let ghost before = out@;
            out.insert(pos, e);
            assert(src.subrange(0, k + 1) =~= src.subrange(0, k as int).push(e));
            assert(out@ == before.insert(pos as int, e));
            proof {
                src.subrange(0, k as int).to_multiset_ensures();
                vstd::seq_lib::to_multiset_insert(before, pos as int, e);
                assert(out@.to_multiset() == before.to_multiset().insert(e));
            }
            k = k + 1;
        }
        assert(src.subrange(0, k as int) =~= src);
        proof {
            books.lemma_entries_list_catalog();
            lemma_permutation_lists_catalog(src, out@, books@);
        }
        out
    }
}

/// Looking a slug up in the catalog that loading the books `rows` gives
/// finds a book exactly where some book of `rows` has that slug, and what it
/// finds is one of `rows` with that slug.
pub proof fn lemma_lookup_finds_loaded_slugs(rows: Seq<Book>, s: Seq<char>)
    ensures
        lookup(catalog_of(rows), s) is Some <==> exists|i: int|
            0 <= i < rows.len() && #[trigger] rows[i].slug@ == s,
        lookup(catalog_of(rows), s) matches Some(b) ==> b.slug@ == s && rows.contains(b),
{
    lemma_catalog_holds_loaded_slugs(rows, s);
}

proof fn lemma_catalog_holds_loaded_slugs(rows: Seq<Book>, s: Seq<char>)
    ensures
        catalog_of(rows).contains_key(s) <==> exists|i: int|
            0 <= i < rows.len() && #[trigger] rows[i].slug@ == s,
        catalog_of(rows).contains_key(s) ==> catalog_of(rows)[s].slug@ == s && rows.contains(
            catalog_of(rows)[s],
        ),
    decreases rows.len(),
{
    if rows.len() > 0 {
        let init = rows.drop_last();
        lemma_catalog_holds_loaded_slugs(init, s);
        if rows.last().slug@ != s {
            if catalog_of(rows).contains_key(s) {
                let i = choose|i: int| 0 <= i < init.len() && #[trigger] init[i].slug@ == s;
                assert(rows[i] == init[i]);
                let j = choose|j: int| 0 <= j < init.len() && init[j] == catalog_of(rows)[s];
                assert(rows[j] == init[j]);
            }
            if exists|i: int| 0 <= i < rows.len() && #[trigger] rows[i].slug@ == s {
                let i = choose|i: int| 0 <= i < rows.len() && #[trigger] rows[i].slug@ == s;
                assert(init[i].slug@ == s);
            }
        } else {
            assert(rows[rows.len() - 1].slug@ == s);
            assert(rows[rows.len() - 1] == rows.last());
        }
    }
}

} // verus!
