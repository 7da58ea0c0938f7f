//! A read-only catalog of books and their numbered hadiths: an in-memory
//! cache of the books, keyed by slug, and the assembly of bounded pages of
//! a book's hadiths from what the store returns.

pub mod catalog;
pub mod model;
pub mod paging;
pub mod query;

pub use catalog::BookMap;
pub use model::{Book, Hadith, HadithPagination, HadithRow};
pub use paging::{PageError, PagePlan};
pub use query::{page_bounds, parse_i32, query_bounds};
