use crate::errors::StoreError;
use crate::model::{book_matches_all, matches_all, Book, BookSnap, Keyword};
use vstd::prelude::*;
use vstd::string::StringExecFns;

verus! {

#[verifier::external_type_specification]
#[verifier::external_body]
pub struct ExConnection(rusqlite::Connection);

/// The catalog: a single `books` table reached through one embedded-store
/// connection, owned for the whole life of the value. The ghost `model`
/// is the mathematical contents of the table, one record per ISBN; every
/// trusted call below states its effect against that map.
///
/// The connection is assumed to be the only route to its database while
/// the catalog lives (single process, single handle), as the store's
/// default locking otherwise gives no protection.
pub struct BookStore {
    conn: rusqlite::Connection,
    model: Ghost<Map<u64, BookSnap>>,
}

impl View for BookStore {
    type V = Map<u64, BookSnap>;

    closed spec fn view(&self) -> Map<u64, BookSnap> {
        self.model@
    }
}

/// Some element of `v` carries the ISBN `k`.
pub open spec fn has_isbn(v: Seq<Book>, k: u64) -> bool {
    exists|i: int| 0 <= i < v.len() && #[trigger] v[i]@.isbn == k
}

/// No two elements of `v` carry the same ISBN.
pub open spec fn distinct_isbns(v: Seq<Book>) -> bool {
    forall|i: int, j: int|
        0 <= i < v.len() && 0 <= j < v.len() && i != j ==> #[trigger] v[i]@.isbn
            != #[trigger] v[j]@.isbn
}

/// A sequence lists a catalog exactly: every element is a record of the
/// catalog under its own ISBN, every ISBN of the catalog occurs, and no
/// ISBN occurs twice. Order is left open.
pub open spec fn listing_of(v: Seq<Book>, m: Map<u64, BookSnap>) -> bool {
    &&& (forall|i: int|
        0 <= i < v.len() ==> m.contains_key(#[trigger] v[i]@.isbn) && v[i]@ == m[v[i]@.isbn])
    &&& (forall|k: u64| #[trigger] m.contains_key(k) ==> has_isbn(v, k))
    &&& distinct_isbns(v)
}

/// A sequence is the result of a keyword search over a catalog: every
/// element is a record of the catalog that satisfies every keyword, every
/// satisfying record of the catalog occurs, and no ISBN occurs twice.
/// Order is left open: it is the store's own and must not be relied upon.
pub open spec fn selection_of(v: Seq<Book>, m: Map<u64, BookSnap>, ks: Seq<Keyword>) -> bool {
    &&& (forall|i: int|
        0 <= i < v.len() ==> m.contains_key(#[trigger] v[i]@.isbn) && v[i]@ == m[v[i]@.isbn]
            && matches_all(v[i]@, ks))
    &&& (forall|k: u64| #[trigger] m.contains_key(k) && matches_all(m[k], ks) ==> has_isbn(v, k))
    &&& distinct_isbns(v)
}

/// `b` stands somewhere in `v` at or after position `lo`.
spec fn from_suffix(b: Book, v: Seq<Book>, lo: int) -> bool {
    exists|j: int| lo <= j < v.len() && b == #[trigger] v[j]
}

/// Relies on `rusqlite::Connection::execute`: runs one parameterless SQL
/// statement; any failure of the store is surfaced as `Storage`. Used
/// only for the schema DDL, before a `BookStore` exists for the
/// connection.
#[verifier::external_body]
fn run_sql(conn: &rusqlite::Connection, sql: &str) -> (r: Result<(), StoreError>)
    ensures
        r matches Err(e) ==> e is Storage,
{
    match conn.execute(sql, ()) {
        Ok(_) => Ok(()),
        Err(e) => Err(StoreError::Storage(e.to_string())),
    }
}

/// Relies on SQLite's `pragma table_info`: one row per column of the
/// `books` table, in declared order, with the column's name in field 1.
/// What comes back depends on the database behind the connection, so
/// nothing is claimed of the listing itself; any failure of the store is
/// surfaced as `Storage`.
#[verifier::external_body]
fn table_columns(conn: &rusqlite::Connection) -> (r: Result<Vec<String>, StoreError>)
    ensures
        r matches Err(e) ==> e is Storage,
{
    let err = |e: rusqlite::Error| StoreError::Storage(e.to_string());
    let mut stmt = conn.prepare("pragma table_info(books)").map_err(err)?;
    let rows = stmt.query_map([], |row| row.get::<_, String>(1)).map_err(err)?;
    let mut out = Vec::new();
    for name in rows {
        out.push(name.map_err(err)?);
    }
    Ok(out)
}

/// Trusted constructor: wraps the connection and binds the ghost `model`
/// to the current contents of its `books` table — the map every other
/// trusted call states its effect against. Only trusted code ever seeds
/// the model, and nothing is claimed of its value here, so each
/// catalog's model stands for its own table's contents.
#[verifier::external_body]
fn attach(conn: rusqlite::Connection) -> (s: BookStore) {
    // The value written here is erased and immaterial: the model stands
    // for the table's contents, of which this contract claims nothing.
    let ghost m: Map<u64, BookSnap> = Map::empty();
    BookStore { conn, model: Ghost(m) }
}

/// Decides whether a column listing is exactly the catalog's schema:
/// `isbn`, `name`, `authors`, `tags`, `lang`, `price`, in that order.
fn columns_match(cols: &Vec<String>) -> (r: bool)
    ensures
        r == (cols@.len() == 6 && cols@[0]@ == "isbn"@ && cols@[1]@ == "name"@ && cols@[2]@
            == "authors"@ && cols@[3]@ == "tags"@ && cols@[4]@ == "lang"@ && cols@[5]@
            == "price"@),
{
    cols.len() == 6 && crate::text::str_eq(cols[0].as_str(), "isbn") && crate::text::str_eq(
        cols[1].as_str(),
        "name",
    ) && crate::text::str_eq(cols[2].as_str(), "authors") && crate::text::str_eq(
        cols[3].as_str(),
        "tags",
    ) && crate::text::str_eq(cols[4].as_str(), "lang") && crate::text::str_eq(
        cols[5].as_str(),
        "price",
    )
}

/// Relies on `rusqlite::Connection::execute` with a parameter-bound
/// single-row INSERT: the row is written atomically iff its primary key
/// `isbn` is absent; a present key fails with the primary-key constraint
/// (reported as `DuplicateKey`); any other failure of the store leaves
/// the table unchanged and is reported as `Storage`.
#[verifier::external_body]
fn insert_row(store: &mut BookStore, book: &Book) -> (r: Result<(), StoreError>)
    ensures
        old(store)@.contains_key(book.isbn) ==> (r matches Err(e) && (e is DuplicateKey
            || e is Storage) && final(store)@ == old(store)@),
        !old(store)@.contains_key(book.isbn) ==> (match r {
            Ok(_) => final(store)@ == old(store)@.insert(book.isbn, book@),
            Err(e) => e is Storage && final(store)@ == old(store)@,
        }),
        r matches Err(e) && e is DuplicateKey ==> old(store)@.contains_key(book.isbn),
{
    let sql = "insert into books (isbn, name, authors, tags, lang, price) values (?1, ?2, ?3, ?4, ?5, ?6)";
    let args = (book.isbn, &book.name, &book.authors, &book.tags, &book.lang, book.price);
    match store.conn.execute(sql, args) {
        Ok(_) => Ok(()),
        Err(rusqlite::Error::SqliteFailure(e, _)) if e.extended_code
            == rusqlite::ffi::SQLITE_CONSTRAINT_PRIMARYKEY => Err(StoreError::DuplicateKey),
        Err(e) => Err(StoreError::Storage(e.to_string())),
    }
}

/// Relies on `rusqlite::Connection::query_row` with a parameter-bound
/// primary-key lookup: at most one row can carry the key, and its columns
/// are returned as they stand in the table; no row at all is
/// `QueryReturnedNoRows`, mapped to `None`.
#[verifier::external_body]
fn select_isbn(store: &BookStore, isbn: u64) -> (r: Result<Option<Book>, StoreError>)
    ensures
        (match r {
            Ok(Some(b)) => store@.contains_key(isbn) && b@ == store@[isbn] && b.isbn == isbn,
            Ok(None) => !store@.contains_key(isbn),
            Err(e) => e is Storage,
        }),
{
    let read = |row: &rusqlite::Row| Ok(Book {
        isbn: row.get(0)?, name: row.get(1)?, authors: row.get(2)?,
        tags: row.get(3)?, lang: row.get(4)?, price: row.get(5)?,
    });
    match store.conn.query_row("select * from books where isbn = ?1", (isbn,), read) {
        Ok(b) => Ok(Some(b)),
        Err(rusqlite::Error::QueryReturnedNoRows) => Ok(None),
        Err(e) => Err(StoreError::Storage(e.to_string())),
    }
}

/// Relies on `rusqlite`'s `prepare` and `query_map` running a full-table
/// SELECT: the rows produced are exactly the table's rows, one per
/// primary key, in the store's own order.
#[verifier::external_body]
fn select_all(store: &BookStore) -> (r: Result<Vec<Book>, StoreError>)
    ensures
        r matches Ok(v) ==> listing_of(v@, store@),
        r matches Err(e) ==> e is Storage,
{
    let err = |e: rusqlite::Error| StoreError::Storage(e.to_string());
    let read = |row: &rusqlite::Row| Ok(Book {
        isbn: row.get(0)?, name: row.get(1)?, authors: row.get(2)?,
        tags: row.get(3)?, lang: row.get(4)?, price: row.get(5)?,
    });
    let mut stmt = store.conn.prepare("select * from books").map_err(err)?;
    let rows = stmt.query_map([], read).map_err(err)?;
    let mut out = Vec::new();
    for b in rows {
        out.push(b.map_err(err)?);
    }
    Ok(out)
}

impl BookStore {
    /// Takes ownership of a connection and idempotently ensures the
    /// `books` table exists (ISBN primary key, all other columns
    /// non-null). A pre-existing `books` table is kept only if its column
    /// layout is exactly the catalog's — `create table if not exists` is
    /// a no-op on any table of that name, so the layout is checked and a
    /// foreign one is rejected with `Storage`. On success the catalog
    /// holds whatever records the connection's database already contained
    /// — nothing more is known of its contents at this point. Fails with
    /// `Storage` if the store cannot be reached or rejects the schema.
    pub fn initialize(conn: rusqlite::Connection) -> (r: Result<BookStore, StoreError>)
        ensures
            r matches Err(e) ==> e is Storage,
    {
        match run_sql(
            &conn,
            "create table if not exists books (isbn integer primary key, name text not null, authors text not null, tags text not null, lang text not null, price integer not null)",
        ) {
            Ok(_) => {},
            Err(e) => {
                return Err(e);
            },
        }
        let cols = match table_columns(&conn) {
            Ok(v) => v,
            Err(e) => {
                return Err(e);
            },
        };
        if !columns_match(&cols) {
            return Err(StoreError::Storage(String::from_str(
                "the books table has a foreign column layout",
            )));
        }
        Ok(attach(conn))
    }

    /// Persists one record, atomically. An ISBN already present is
    /// rejected with `DuplicateKey` and leaves the catalog exactly as it
    /// was; otherwise the record is added under its ISBN unless the store
    /// itself fails, which leaves the catalog unchanged and reports
    /// `Storage`.
    pub fn insert(&mut self, book: Book) -> (r: Result<(), StoreError>)
        ensures
            old(self)@.contains_key(book.isbn) ==> (r matches Err(e) && (e is DuplicateKey
                || e is Storage) && final(self)@ == old(self)@),
            !old(self)@.contains_key(book.isbn) ==> (match r {
                Ok(_) => final(self)@ == old(self)@.insert(book.isbn, book@),
                Err(e) => e is Storage && final(self)@ == old(self)@,
            }),
            r matches Err(e) && e is DuplicateKey ==> old(self)@.contains_key(book.isbn),
    {
        insert_row(self, &book)
    }

    /// Exact lookup: returns the one record stored under `isbn`, fails
    /// with `NotFound` exactly when no record carries that ISBN, and with
    /// `Storage` only when the store itself fails.
    pub fn find_by_isbn(&self, isbn: u64) -> (r: Result<Book, StoreError>)
        ensures
            (match r {
                Ok(b) => self@.contains_key(isbn) && b@ == self@[isbn] && b.isbn == isbn,
                Err(e) => match e {
                    StoreError::NotFound => !self@.contains_key(isbn),
                    StoreError::Storage(_) => true,
                    _ => false,
                },
            }),
    {
        match select_isbn(self, isbn) {
            Ok(Some(b)) => Ok(b),
            Ok(None) => Err(StoreError::NotFound),
            Err(e) => Err(e),
        }
    }

    /// Keyword conjunction search: returns exactly the records of which
    /// every keyword's operand occurs as a substring of its targeted
    /// field, in the store's own (unspecified) order. Matching is literal
    /// and case-sensitive — no case folding, no wildcard characters; see
    /// `Keyword`. An empty keyword list is rejected with `InvalidQuery`
    /// before it reaches the store — it never silently returns all rows.
    pub fn find_by_keywords(&self, keywords: Vec<Keyword>) -> (r: Result<Vec<Book>, StoreError>)
        ensures
            keywords@.len() == 0 <==> r == Err::<Vec<Book>, StoreError>(StoreError::InvalidQuery),
            (match r {
                Ok(v) => selection_of(v@, self@, keywords@),
                Err(e) => e is InvalidQuery || e is Storage,
            }),
    {
        if keywords.len() == 0 {
            return Err(StoreError::InvalidQuery);
        }
        let mut rest = match select_all(self) {
            Ok(v) => v,
            Err(e) => {
                return Err(e);
            },
        };
        let ghost m = self@;
        let ghost orig = rest@;
        let mut out: Vec<Book> = Vec::new();
        proof {
            assert(rest@ =~= orig.subrange(0, rest@.len() as int));
        }
        while rest.len() > 0
            invariant
                listing_of(orig, m),
                rest@ == orig.subrange(0, rest@.len() as int),
                rest@.len() <= orig.len(),
                forall|i: int|
                    0 <= i < out@.len() ==> matches_all((#[trigger] out@[i])@, keywords@),
                forall|i: int|
                    0 <= i < out@.len() ==> from_suffix(#[trigger] out@[i], orig, rest@.len() as int),
                forall|j: int|
                    rest@.len() <= j < orig.len() && matches_all(#[trigger] orig[j]@, keywords@)
                        ==> has_isbn(out@, orig[j]@.isbn),
                distinct_isbns(out@),
            decreases rest@.len(),
        {
            let ghost prev_len = rest@.len() as int;
            let ghost li = prev_len - 1;
            let b = rest.pop().unwrap();
            proof {
                assert(b == orig[li]);
                assert(rest@ =~= orig.subrange(0, rest@.len() as int));
            }
            let matched = book_matches_all(&b, &keywords);
            let ghost old_out = out@;
            if matched {
                out.push(b);
            }
            proof {
                assert forall|i: int|
                    0 <= i < out@.len() implies from_suffix(
                    #[trigger] out@[i],
                    orig,
                    rest@.len() as int,
                ) by {
                    if i < old_out.len() {
                        assert(out@[i] == old_out[i]);
                        assert(from_suffix(old_out[i], orig, prev_len));
                        let j = choose|j: int| prev_len <= j < orig.len() && old_out[i] == orig[j];
                        assert(li <= j < orig.len() && out@[i] == orig[j]);
                    } else {
                        assert(out@[i] == b && b == orig[li]);
                    }
                }
                assert forall|i: int|
                    0 <= i < out@.len() implies matches_all((#[trigger] out@[i])@, keywords@) by {
                    if i < old_out.len() {
                        assert(out@[i] == old_out[i]);
                    } else {
                        assert(out@[i] == b);
                    }
                }
                assert forall|j: int|
                    rest@.len() <= j < orig.len() && matches_all(
                        #[trigger] orig[j]@,
                        keywords@,
                    ) implies has_isbn(out@, orig[j]@.isbn) by {
                    if j == li {
                        assert(matched);
                        assert(out@[out@.len() - 1] == b && b@.isbn == orig[j]@.isbn);
                    } else {
                        assert(has_isbn(old_out, orig[j]@.isbn));
                        let i = choose|i: int|
                            0 <= i < old_out.len() && old_out[i]@.isbn == orig[j]@.isbn;
                        assert(out@[i] == old_out[i]);
                    }
                }
                assert forall|i1: int, i2: int|
                    0 <= i1 < out@.len() && 0 <= i2 < out@.len() && i1 != i2 implies #[trigger] out@[i1]@.isbn
                    != #[trigger] out@[i2]@.isbn by {
                    if matched && i1 == out@.len() - 1 {
                        assert(out@[i2] == old_out[i2]);
                        assert(from_suffix(old_out[i2], orig, prev_len));
                        let j = choose|j: int|
                            prev_len <= j < orig.len() && old_out[i2] == orig[j];
                        assert(orig[j]@.isbn != orig[li]@.isbn);
                    } else if matched && i2 == out@.len() - 1 {
                        assert(out@[i1] == old_out[i1]);
                        assert(from_suffix(old_out[i1], orig, prev_len));
                        let j = choose|j: int|
                            prev_len <= j < orig.len() && old_out[i1] == orig[j];
                        assert(orig[j]@.isbn != orig[li]@.isbn);
                    } else {
                        assert(out@[i1] == old_out[i1] && out@[i2] == old_out[i2]);
                    }
                }
            }
        }
        proof {
            assert forall|i: int|
                0 <= i < out@.len() implies m.contains_key(#[trigger] out@[i]@.isbn) && out@[i]@
                == m[out@[i]@.isbn] && matches_all(out@[i]@, keywords@) by {
                assert(from_suffix(out@[i], orig, 0));
                let j = choose|j: int| 0 <= j < orig.len() && out@[i] == orig[j];
                assert(m.contains_key(orig[j]@.isbn) && orig[j]@ == m[orig[j]@.isbn]);
            }
            assert forall|k: u64|
                #[trigger] m.contains_key(k) && matches_all(m[k], keywords@) implies has_isbn(
                out@,
                k,
            ) by {
                assert(has_isbn(orig, k));
                let j = choose|j: int| 0 <= j < orig.len() && #[trigger] orig[j]@.isbn == k;
                assert(m.contains_key(orig[j]@.isbn) && orig[j]@ == m[orig[j]@.isbn]);
                assert(orig[j]@ == m[k]);
                assert(matches_all(orig[j]@, keywords@));
                assert(has_isbn(out@, orig[j]@.isbn));
            }
        }
        Ok(out)
    }
}

/// Law (round trip): the record inserted under its ISBN is exactly the
/// record an exact lookup of that ISBN consults afterwards — fetching
/// right after a successful insert yields a record equal in every field,
/// the fixed-point price included.
pub proof fn lemma_insert_then_lookup(m: Map<u64, BookSnap>, b: BookSnap)
    ensures
        m.insert(b.isbn, b).contains_key(b.isbn),
        m.insert(b.isbn, b)[b.isbn] == b,
{
}

} // verus!
