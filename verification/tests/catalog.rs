use book_catalog::{Book, BookStore, Keyword, StoreError};

fn fresh_store() -> BookStore {
    let conn = rusqlite::Connection::open_in_memory().expect("open in-memory database");
    BookStore::initialize(conn).expect("initialize schema")
}

fn c_book() -> Book {
    Book::new(
        9780134190440,
        "The C Programming Language",
        "Kernighan,Ritchie",
        "c,programming",
        "en",
        3599,
    )
}

#[test]
fn round_trip_insert_then_find() {
    let mut store = fresh_store();
    let book = c_book();
    store.insert(book.clone()).expect("insert");
    let found = store.find_by_isbn(9780134190440).expect("find");
    assert_eq!(found, book);
    assert_eq!(found.price_major_minor(), (35, 99));
}

#[test]
fn duplicate_isbn_rejected_first_record_kept() {
    let mut store = fresh_store();
    let first = Book::new(1, "First", "A", "t", "en", 100);
    let second = Book::new(1, "Second", "B", "t", "en", 200);
    store.insert(first.clone()).expect("first insert");
    let r = store.insert(second);
    assert!(matches!(r, Err(StoreError::DuplicateKey)));
    let found = store.find_by_isbn(1).expect("find");
    assert_eq!(found, first);
}

#[test]
fn keyword_conjunction_narrows() {
    let mut store = fresh_store();
    let a = Book::new(10, "A", "Alice Munro", "fiction,classic", "en", 100);
    let b = Book::new(11, "B", "Bob Stone", "fiction,modern", "en", 200);
    store.insert(a.clone()).expect("insert a");
    store.insert(b.clone()).expect("insert b");

    let both = store
        .find_by_keywords(vec![Keyword::Tag(String::from("fiction"))])
        .expect("search");
    assert_eq!(both.len(), 2);
    assert!(both.contains(&a));
    assert!(both.contains(&b));

    let only_a = store
        .find_by_keywords(vec![
            Keyword::Tag(String::from("fiction")),
            Keyword::Author(String::from("Alice")),
        ])
        .expect("search");
    assert_eq!(only_a, vec![a]);
}

#[test]
fn empty_keyword_list_is_invalid_query() {
    let mut store = fresh_store();
    store.insert(c_book()).expect("insert");
    let r = store.find_by_keywords(Vec::new());
    assert!(matches!(r, Err(StoreError::InvalidQuery)));
}

#[test]
fn find_missing_isbn_is_not_found() {
    let store = fresh_store();
    let r = store.find_by_isbn(424242);
    assert!(matches!(r, Err(StoreError::NotFound)));
}

#[test]
fn end_to_end_catalog_scenario() {
    let mut store = fresh_store();
    let book = c_book();
    store.insert(book.clone()).expect("insert");

    let found = store.find_by_isbn(9780134190440).expect("find");
    assert_eq!(found, book);

    let by_tag = store
        .find_by_keywords(vec![Keyword::Tag(String::from("c"))])
        .expect("search c");
    assert_eq!(by_tag, vec![book]);

    let none = store
        .find_by_keywords(vec![Keyword::Tag(String::from("python"))])
        .expect("search python");
    assert!(none.is_empty());
}

#[test]
fn substring_match_leak_is_expected() {
    let mut store = fresh_store();
    let rust = Book::new(20, "R", "X", "rust", "en", 100);
    let proofing = Book::new(21, "S", "Y", "rustproofing", "en", 200);
    store.insert(rust.clone()).expect("insert rust");
    store.insert(proofing.clone()).expect("insert rustproofing");
    let hits = store
        .find_by_keywords(vec![Keyword::Tag(String::from("rust"))])
        .expect("search");
    assert_eq!(hits.len(), 2);
    assert!(hits.contains(&rust));
    assert!(hits.contains(&proofing));
}

#[test]
fn each_keyword_variant_targets_its_field() {
    let mut store = fresh_store();
    let book = c_book();
    store.insert(book.clone()).expect("insert");

    let by_name = store
        .find_by_keywords(vec![Keyword::Name(String::from("Programming"))])
        .expect("by name");
    assert_eq!(by_name, vec![book.clone()]);

    let by_author = store
        .find_by_keywords(vec![Keyword::Author(String::from("Ritchie"))])
        .expect("by author");
    assert_eq!(by_author, vec![book.clone()]);

    let by_lang = store
        .find_by_keywords(vec![Keyword::Lang(String::from("en"))])
        .expect("by lang");
    assert_eq!(by_lang, vec![book]);

    let miss = store
        .find_by_keywords(vec![Keyword::Name(String::from("programming"))])
        .expect("case-sensitive miss");
    assert!(miss.is_empty());
}

#[test]
fn empty_operand_matches_every_record() {
    let mut store = fresh_store();
    let a = Book::new(30, "A", "X", "one", "en", 100);
    let b = Book::new(31, "B", "Y", "two", "en", 200);
    store.insert(a).expect("insert a");
    store.insert(b).expect("insert b");
    let hits = store
        .find_by_keywords(vec![Keyword::Tag(String::new())])
        .expect("search");
    assert_eq!(hits.len(), 2);
}

#[test]
fn independent_stores_do_not_share_contents() {
    let mut with_book = fresh_store();
    let without_book = fresh_store();
    with_book.insert(c_book()).expect("insert");
    assert!(with_book.find_by_isbn(9780134190440).is_ok());
    let r = without_book.find_by_isbn(9780134190440);
    assert!(matches!(r, Err(StoreError::NotFound)));
}

#[test]
fn initialize_rejects_foreign_books_table() {
    let conn = rusqlite::Connection::open_in_memory().expect("open");
    conn.execute(
        "create table books (name text not null, isbn integer primary key, authors text not null, tags text not null, lang text not null, price integer not null)",
        (),
    )
    .expect("create scrambled table");
    let r = BookStore::initialize(conn);
    assert!(matches!(r, Err(StoreError::Storage(_))));
}

#[test]
fn initialize_keeps_matching_table_and_records() {
    let conn = rusqlite::Connection::open_in_memory().expect("open");
    conn.execute(
        "create table books (isbn integer primary key, name text not null, authors text not null, tags text not null, lang text not null, price integer not null)",
        (),
    )
    .expect("create table");
    conn.execute(
        "insert into books (isbn, name, authors, tags, lang, price) values (5, 'Old', 'O', 'kept', 'en', 150)",
        (),
    )
    .expect("seed row");
    let store = BookStore::initialize(conn).expect("initialize over existing table");
    let found = store.find_by_isbn(5).expect("pre-existing record served");
    assert_eq!(found, Book::new(5, "Old", "O", "kept", "en", 150));
}

#[test]
fn conjunction_needs_every_keyword() {
    let mut store = fresh_store();
    store.insert(c_book()).expect("insert");
    let r = store
        .find_by_keywords(vec![
            Keyword::Tag(String::from("c")),
            Keyword::Author(String::from("Nobody")),
        ])
        .expect("search");
    assert!(r.is_empty());
}
