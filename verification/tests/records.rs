use book_catalog::{Book, StoreError};

#[test]
fn new_book_keeps_every_field() {
    let b = Book::new(7, "Name", "A,B", "x,y", "zh-CN", 8900);
    assert_eq!(b.isbn, 7);
    assert_eq!(b.name, "Name");
    assert_eq!(b.authors, "A,B");
    assert_eq!(b.tags, "x,y");
    assert_eq!(b.lang, "zh-CN");
    assert_eq!(b.price, 8900);
}

#[test]
fn price_splits_into_units_and_cents() {
    assert_eq!(Book::new(1, "n", "a", "t", "en", 3599).price_major_minor(), (35, 99));
    assert_eq!(Book::new(2, "n", "a", "t", "en", 100).price_major_minor(), (1, 0));
    assert_eq!(Book::new(3, "n", "a", "t", "en", 99).price_major_minor(), (0, 99));
    assert_eq!(Book::new(4, "n", "a", "t", "en", 0).price_major_minor(), (0, 0));
}

#[test]
fn price_display_division_is_exact() {
    let b = Book::new(1, "n", "a", "t", "en", 3599);
    assert_eq!(b.price as f64 / 100.0, 35.99);
    let (units, cents) = b.price_major_minor();
    assert_eq!(units * 100 + cents, b.price);
}

#[test]
fn authors_list_splits_and_trims() {
    let b = Book::new(1, "n", " Kernighan , Ritchie ", "t", "en", 1);
    assert_eq!(b.authors_list(), vec!["Kernighan", "Ritchie"]);
}

#[test]
fn list_trimming_covers_tabs_and_newlines() {
    let b = Book::new(1, "n", "\tKernighan ,\nRitchie\r", "t", "en", 1);
    assert_eq!(b.authors_list(), vec!["Kernighan", "Ritchie"]);
}

#[test]
fn tags_list_keeps_empty_pieces() {
    let b = Book::new(1, "n", "a", "c,,programming languages", "en", 1);
    assert_eq!(b.tags_list(), vec!["c", "", "programming languages"]);
}

#[test]
fn single_piece_list_has_no_commas() {
    let b = Book::new(1, "n", "Solo Author", "solo", "en", 1);
    assert_eq!(b.authors_list(), vec!["Solo Author"]);
    assert_eq!(b.tags_list(), vec!["solo"]);
}

#[test]
fn error_labels_name_each_kind() {
    assert_eq!(StoreError::Storage(String::from("x")).describe(), "storage failure");
    assert_eq!(StoreError::DuplicateKey.describe(), "duplicate key");
    assert_eq!(StoreError::NotFound.describe(), "not found");
    assert_eq!(StoreError::InvalidQuery.describe(), "invalid query");
}
