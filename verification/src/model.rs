use crate::text::spec_contains;
use vstd::prelude::*;
use vstd::string::StringExecFns;

verus! {

/// Mathematical image of one catalog record: each text field as its
/// character sequence, the price as a fixed-point amount of minor units
/// (a price of 35.99 is stored as 3599).
#[verifier::ext_equal]
pub ghost struct BookSnap {
    pub isbn: u64,
    pub name: Seq<char>,
    pub authors: Seq<char>,
    pub tags: Seq<char>,
    pub lang: Seq<char>,
    pub price: u64,
}

/// One catalog entry. `authors` and `tags` are denormalized
/// comma-separated lists kept as single strings; `lang` is a free-form
/// language code; `price` is the price times 100 (fixed-point cents), so
/// that no floating-point value is ever persisted.
#[derive(Debug, Clone, PartialEq, Eq)]
pub struct Book {
    pub isbn: u64,
    pub name: String,
    pub authors: String,
    pub tags: String,
    pub lang: String,
    pub price: u64,
}

impl View for Book {
    type V = BookSnap;

    open spec fn view(&self) -> BookSnap {
        BookSnap {
            isbn: self.isbn,
            name: self.name@,
            authors: self.authors@,
            tags: self.tags@,
            lang: self.lang@,
            price: self.price,
        }
    }
}

impl Book {
    /// Builds a record from borrowed text fields.
    pub fn new(isbn: u64, name: &str, authors: &str, tags: &str, lang: &str, price: u64) -> (b:
        Book)
        ensures
            b@ == (BookSnap {
                isbn,
                name: name@,
                authors: authors@,
                tags: tags@,
                lang: lang@,
                price,
            }),
    {
        Book {
            isbn,
            name: String::from_str(name),
            authors: String::from_str(authors),
            tags: String::from_str(tags),
            lang: String::from_str(lang),
            price,
        }
    }

    /// The `authors` field parsed at the model boundary: the
    /// comma-separated author names, each trimmed of surrounding
    /// whitespace. The persisted field itself stays a single delimited
    /// string.
    pub fn authors_list(&self) -> (r: Vec<String>)
        ensures
            r@.len() == crate::text::split_commas(self.authors@).len(),
            forall|k: int|
                0 <= k < r@.len() ==> (#[trigger] r@[k])@ == crate::text::spec_trim(
                    crate::text::split_commas(self.authors@)[k],
                ),
    {
        crate::text::split_list(self.authors.as_str())
    }

    /// The `tags` field parsed at the model boundary: the comma-separated
    /// tags, each trimmed of surrounding whitespace.
    pub fn tags_list(&self) -> (r: Vec<String>)
        ensures
            r@.len() == crate::text::split_commas(self.tags@).len(),
            forall|k: int|
                0 <= k < r@.len() ==> (#[trigger] r@[k])@ == crate::text::spec_trim(
                    crate::text::split_commas(self.tags@)[k],
                ),
    {
        crate::text::split_list(self.tags.as_str())
    }

    /// Splits the fixed-point price into whole units and remaining cents,
    /// for display; the two parts recompose the stored amount exactly.
    pub fn price_major_minor(&self) -> (r: (u64, u64))
        ensures
            r.0 == self.price / 100,
            r.1 == self.price % 100,
            r.1 < 100,
            r.0 * 100 + r.1 == self.price,
    {
        proof {
            vstd::arithmetic::div_mod::lemma_fundamental_div_mod(self.price as int, 100);
        }
        (self.price / 100, self.price % 100)
    }
}

/// A search predicate: a substring match against one field of a record.
/// A search request is a non-empty list of keywords, all required to hold
/// at once (conjunction).
///
/// Matching is literal and case-sensitive: the operand must occur
/// character for character, no case is folded, and no character acts as
/// a wildcard. An empty operand occurs in every field.
#[derive(Debug, Clone)]
pub enum Keyword {
    Author(String),
    Name(String),
    Tag(String),
    Lang(String),
}

/// The substring a keyword searches for.
pub open spec fn operand(k: Keyword) -> Seq<char> {
    match k {
        Keyword::Author(s) => s@,
        Keyword::Name(s) => s@,
        Keyword::Tag(s) => s@,
        Keyword::Lang(s) => s@,
    }
}

/// The field of a record a keyword is matched against.
pub open spec fn target_text(b: BookSnap, k: Keyword) -> Seq<char> {
    match k {
        Keyword::Author(_) => b.authors,
        Keyword::Name(_) => b.name,
        Keyword::Tag(_) => b.tags,
        Keyword::Lang(_) => b.lang,
    }
}

/// One keyword holds of a record iff its operand occurs as a contiguous
/// substring of the targeted field.
pub open spec fn keyword_matches(b: BookSnap, k: Keyword) -> bool {
    spec_contains(target_text(b, k), operand(k))
}

/// A record satisfies a search request iff every keyword of the request
/// matches it.
pub open spec fn matches_all(b: BookSnap, ks: Seq<Keyword>) -> bool {
    forall|j: int| 0 <= j < ks.len() ==> keyword_matches(b, ks[j])
}

/// Law (conjunction): keywords combine by logical AND and nothing else —
/// a record satisfies a request extended by one more keyword exactly when
/// it satisfies the original request and the added keyword as well.
pub proof fn lemma_conjunction_extends(b: BookSnap, ks: Seq<Keyword>, k: Keyword)
    ensures
        matches_all(b, ks.push(k)) <==> (matches_all(b, ks) && keyword_matches(b, k)),
{
    assert(ks.push(k)[ks.len() as int] == k);
    if matches_all(b, ks) && keyword_matches(b, k) {
        assert forall|j: int| 0 <= j < ks.push(k).len() implies keyword_matches(
            b,
            ks.push(k)[j],
        ) by {
            if j < ks.len() {
                assert(ks.push(k)[j] == ks[j]);
            }
        }
    }
    if matches_all(b, ks.push(k)) {
        assert forall|j: int| 0 <= j < ks.len() implies keyword_matches(b, ks[j]) by {
            assert(keyword_matches(b, ks.push(k)[j]));
        }
    }
}

/// Decides one keyword against a record.
pub fn keyword_match(b: &Book, k: &Keyword) -> (r: bool)
    ensures
        r == keyword_matches(b@, *k),
{
    match k {
        Keyword::Author(s) => crate::text::str_contains(b.authors.as_str(), s.as_str()),
        Keyword::Name(s) => crate::text::str_contains(b.name.as_str(), s.as_str()),
        Keyword::Tag(s) => crate::text::str_contains(b.tags.as_str(), s.as_str()),
        Keyword::Lang(s) => crate::text::str_contains(b.lang.as_str(), s.as_str()),
    }
}

/// Decides a whole conjunction of keywords against a record.
pub fn book_matches_all(b: &Book, ks: &Vec<Keyword>) -> (r: bool)
    ensures
        r == matches_all(b@, ks@),
{
    let mut i: usize = 0;
    while i < ks.len()
        invariant
            i <= ks@.len(),
            forall|j: int| 0 <= j < i ==> keyword_matches(b@, ks@[j]),
        decreases ks@.len() - i,
    {
        if !keyword_match(b, &ks[i]) {
            assert(!keyword_matches(b@, ks@[i as int]));
            return false;
        }
        i += 1;
    }
    true
}

} // verus!
