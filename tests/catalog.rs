use hadith_api::{Book, BookMap};

fn book(id: i32, slug: &str, name: &str, available: Option<i32>) -> Book {
    Book { id, name: name.to_string(), slug: slug.to_string(), available }
}

fn sample_rows() -> Vec<Book> {
    vec![
        book(1, "bukhari", "Shahih Bukhari", Some(7008)),
        book(2, "muslim", "Shahih Muslim", Some(5362)),
        book(3, "abu-daud", "HR. Abu Daud", None),
    ]
}

#[test]
fn find_returns_each_loaded_book_by_its_slug() {
    let rows = sample_rows();
    let books = BookMap::load(&rows);
    for row in &rows {
        let found = books.find(&row.slug).expect("loaded slug is found");
        assert_eq!(&found, row);
    }
}

#[test]
fn find_is_absent_for_other_strings() {
    let books = BookMap::load(&sample_rows());
    assert!(books.find("tirmidzi").is_none());
    assert!(books.find("").is_none());
    assert!(books.find("Bukhari").is_none());
    assert!(books.find("bukhari ").is_none());
}

#[test]
fn empty_catalog_finds_nothing_and_lists_nothing() {
    let books = BookMap::load(&Vec::new());
    assert!(books.find("bukhari").is_none());
    assert!(Book::find_all(&books).is_empty());
}

#[test]
fn a_slug_loaded_twice_keeps_its_last_book() {
    let rows = vec![
        book(1, "intro", "First", Some(1)),
        book(2, "other", "Other", None),
        book(3, "intro", "Second", Some(2)),
    ];
    let books = BookMap::load(&rows);
    assert_eq!(books.find("intro"), Some(book(3, "intro", "Second", Some(2))));
    let all = Book::find_all(&books);
    let ids: Vec<i32> = all.iter().map(|b| b.id).collect();
    assert_eq!(ids, vec![2, 3]);
}

#[test]
fn find_all_sorts_by_id_whatever_the_load_order() {
    let rows = vec![
        book(5, "e", "E", None),
        book(2, "b", "B", Some(3)),
        book(9, "i", "I", None),
        book(1, "a", "A", Some(1)),
        book(4, "d", "D", None),
    ];
    let books = BookMap::load(&rows);
    let first = Book::find_all(&books);
    let ids: Vec<i32> = first.iter().map(|b| b.id).collect();
    assert_eq!(ids, vec![1, 2, 4, 5, 9]);
    let slugs: Vec<&str> = first.iter().map(|b| b.slug.as_str()).collect();
    assert_eq!(slugs, vec!["a", "b", "d", "e", "i"]);
    let second = Book::find_all(&books);
    assert_eq!(first, second);
}

#[test]
fn insert_adds_a_book_under_its_slug() {
    let mut books = BookMap::new();
    books.insert(book(7, "nasai", "HR. Nasai", Some(5662)));
    assert_eq!(books.find("nasai").map(|b| b.id), Some(7));
    assert!(books.find("malik").is_none());
}

#[test]
fn total_defaults_to_zero_when_unknown() {
    assert_eq!(book(1, "a", "A", Some(12)).total(), 12);
    assert_eq!(book(1, "a", "A", None).total(), 0);
}
