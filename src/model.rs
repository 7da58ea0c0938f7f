use vstd::prelude::*;

verus! {

/// A book of the catalog, as the store holds it.
#[derive(Debug, PartialEq, Eq)]
pub struct Book {
    pub id: i32,
    pub name: String,
    pub slug: String,
    /// The declared number of hadiths of the book, where known.
    pub available: Option<i32>,
}

impl Clone for Book {
    fn clone(&self) -> (r: Book)
        ensures
            r == *self,
    {
        Book {
            id: self.id,
            name: self.name.clone(),
            slug: self.slug.clone(),
            available: self.available,
        }
    }
}

/// One hadith as the store returns it: its number within the book and its
/// two texts.
#[derive(Debug, PartialEq, Eq)]
pub struct HadithRow {
    pub number: i32,
    pub indonesian: String,
    pub arabic: String,
}

/// One hadith of a page, with the slug and the name of its book attached.
#[derive(Debug, PartialEq, Eq)]
pub struct Hadith {
    pub number: i32,
    pub indonesian: String,
    pub arabic: String,
    pub book_slug: String,
    pub book_name: String,
}

/// A page of a book's hadiths: the book, the hadiths of the window, the
/// window's bounds as asked, and the book's declared total.
#[derive(Debug, PartialEq, Eq)]
pub struct HadithPagination {
    pub book: Book,
    pub items: Vec<Hadith>,
    pub limit: i32,
    pub offset: i32,
    pub total: i32,
}

/// The declared number of hadiths of a book, 0 where it is unknown.
pub open spec fn declared_total(b: Book) -> i32 {
    match b.available {
        Some(n) => n,
        None => 0,
    }
}

impl Book {
    /// The declared number of hadiths of this book, 0 where it is unknown.
    pub fn total(&self) -> (r: i32)
        ensures
            r == declared_total(*self),
    {
        match self.available {
            Some(n) => n,
            None => 0,
        }
    }
}

/// `h` is the hadith of a page made from the store row `row` of book `book`.
pub open spec fn is_hadith_of(h: Hadith, row: HadithRow, book: Book) -> bool {
    &&& h.number == row.number
    &&& h.indonesian == row.indonesian
    &&& h.arabic == row.arabic
    &&& h.book_slug == book.slug
    &&& h.book_name == book.name
}

} // verus!
