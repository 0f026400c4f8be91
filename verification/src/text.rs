use vstd::prelude::*;
use vstd::string::StrSliceExecFns;

verus! {

/// `pat` occurs somewhere inside `text` as a contiguous run of characters.
/// An empty `pat` occurs in every text.
pub open spec fn spec_contains(text: Seq<char>, pat: Seq<char>) -> bool {
    exists|i: int|
        0 <= i && i + pat.len() <= text.len() && #[trigger] text.subrange(i, i + pat.len()) == pat
}

/// Compares `pat` with the window of `text` that starts at character `i`.
fn match_at(text: &str, pat: &str, i: usize, tlen: usize, plen: usize) -> (r: bool)
    requires
        tlen == text@.len(),
        plen == pat@.len(),
        i + plen <= tlen,
    ensures
        r == (text@.subrange(i as int, i + plen) == pat@),
{
    let mut j: usize = 0;
    while j < plen
        invariant
            tlen == text@.len(),
            plen == pat@.len(),
            i + plen <= tlen,
            j <= plen,
            forall|j0: int| 0 <= j0 < j ==> text@[i + j0] == pat@[j0],
        decreases plen - j,
    {
        if text.get_char(i + j) != pat.get_char(j) {
            assert(text@.subrange(i as int, i + plen)[j as int] != pat@[j as int]);
            return false;
        }
        j += 1;
    }
    assert(text@.subrange(i as int, i + plen) =~= pat@);
    true
}

/// Law (substring leak): matching is on raw substrings and does not
/// respect list boundaries — a pattern found in a piece of text is also
/// found in any text that embeds that piece, so a keyword for one tag
/// also matches a longer tag that merely contains it.
pub proof fn lemma_contains_embeds(u: Seq<char>, t: Seq<char>, v: Seq<char>, p: Seq<char>)
    requires
        spec_contains(t, p),
    ensures
        spec_contains(u + t + v, p),
{
    let i = choose|i: int|
        0 <= i && i + p.len() <= t.len() && #[trigger] t.subrange(i, i + p.len()) == p;
    assert((u + t + v).subrange(u.len() + i, u.len() + i + p.len()) =~= p);
}

/// The pieces of `s` between commas, in order. A text without commas is a
/// single piece; every comma separates two (possibly empty) pieces, so a
/// text with n commas has n + 1 pieces.
pub open spec fn split_commas(s: Seq<char>) -> Seq<Seq<char>>
    decreases s.len(),
{
    if s.len() == 0 {
        seq![Seq::<char>::empty()]
    } else if s[0] == ',' {
        seq![Seq::<char>::empty()] + split_commas(s.subrange(1, s.len() as int))
    } else {
        let rest = split_commas(s.subrange(1, s.len() as int));
        seq![seq![s[0]] + rest[0]] + rest.subrange(1, rest.len() as int)
    }
}

/// The characters trimming removes: the ASCII whitespace characters.
pub open spec fn is_space(c: char) -> bool {
    c == ' ' || c == '\t' || c == '\n' || c == '\r'
}

/// `s` without its leading whitespace.
pub open spec fn trim_left(s: Seq<char>) -> Seq<char>
    decreases s.len(),
{
    if s.len() > 0 && is_space(s[0]) {
        trim_left(s.subrange(1, s.len() as int))
    } else {
        s
    }
}

/// `s` without its trailing whitespace.
pub open spec fn trim_right(s: Seq<char>) -> Seq<char>
    decreases s.len(),
{
    if s.len() > 0 && is_space(s[s.len() - 1]) {
        trim_right(s.subrange(0, s.len() - 1))
    } else {
        s
    }
}

/// `s` without leading and trailing whitespace (spaces, tabs, newlines
/// and carriage returns).
pub open spec fn spec_trim(s: Seq<char>) -> Seq<char> {
    trim_right(trim_left(s))
}

/// Decides `is_space` for one character.
fn space_char(c: char) -> (r: bool)
    ensures
        r == is_space(c),
{
    c == ' ' || c == '\t' || c == '\n' || c == '\r'
}

/// Splitting yields at least one piece, whatever the text.
pub proof fn lemma_split_commas_len(s: Seq<char>)
    ensures
        split_commas(s).len() >= 1,
    decreases s.len(),
{
    if s.len() == 0 {
    } else {
        lemma_split_commas_len(s.subrange(1, s.len() as int));
    }
}

/// Splitting a comma-free text `u` followed by `t` keeps `u` glued to the
/// front of `t`'s first piece and leaves `t`'s later pieces alone.
pub proof fn lemma_split_absorb(u: Seq<char>, t: Seq<char>)
    requires
        forall|p: int| 0 <= p < u.len() ==> u[p] != ',',
    ensures
        split_commas(u + t) =~~= seq![u + split_commas(t)[0]] + split_commas(t).subrange(
            1,
            split_commas(t).len() as int,
        ),
    decreases u.len(),
{
    lemma_split_commas_len(t);
    let rest = split_commas(t);
    if u.len() == 0 {
        assert(u + t =~= t);
        assert(u + rest[0] =~= rest[0]);
        assert(split_commas(u + t) =~~= seq![u + rest[0]] + rest.subrange(1, rest.len() as int));
    } else {
        let s = u + t;
        let u1 = u.subrange(1, u.len() as int);
        lemma_split_absorb(u1, t);
        assert(s[0] == u[0] && s[0] != ',');
        assert(s.subrange(1, s.len() as int) =~= u1 + t);
        let rest2 = split_commas(s.subrange(1, s.len() as int));
        assert(rest2 =~~= seq![u1 + rest[0]] + rest.subrange(1, rest.len() as int));
        assert(seq![s[0]] + rest2[0] =~= u + rest[0]);
        assert(rest2.subrange(1, rest2.len() as int) =~~= rest.subrange(1, rest.len() as int));
        assert(split_commas(s) =~~= seq![u + rest[0]] + rest.subrange(1, rest.len() as int));
    }
}

/// A comma-free text is one piece.
pub proof fn lemma_split_no_comma(u: Seq<char>)
    requires
        forall|p: int| 0 <= p < u.len() ==> u[p] != ',',
    ensures
        split_commas(u) =~~= seq![u],
{
    lemma_split_absorb(u, Seq::empty());
    assert(u + Seq::<char>::empty() =~= u);
    assert(split_commas(Seq::<char>::empty()) =~~= seq![Seq::<char>::empty()]);
    assert(u + split_commas(Seq::<char>::empty())[0] =~= u);
}

/// Character-wise string equality: true iff the two texts read the same.
pub fn str_eq(a: &str, b: &str) -> (r: bool)
    ensures
        r == (a@ == b@),
{
    let alen = a.unicode_len();
    let blen = b.unicode_len();
    if alen != blen {
        return false;
    }
    let r = match_at(a, b, 0, alen, blen);
    proof {
        assert(a@.subrange(0, alen as int) =~= a@);
    }
    r
}

/// Substring test, decided character by character: true iff the characters
/// of `pat` occur contiguously inside `text`.
pub fn str_contains(text: &str, pat: &str) -> (r: bool)
    ensures
        r == spec_contains(text@, pat@),
{
    let tlen = text.unicode_len();
    let plen = pat.unicode_len();
    if plen > tlen {
        return false;
    }
    if plen == 0 {
        assert(spec_contains(text@, pat@)) by {
            assert(text@.subrange(0, 0 + pat@.len() as int) =~= pat@);
        }
        return true;
    }
    let mut i: usize = 0;
    while i <= tlen - plen
        invariant
            tlen == text@.len(),
            plen == pat@.len(),
            1 <= plen <= tlen,
            i <= tlen - plen + 1,
            forall|i0: int| 0 <= i0 < i ==> #[trigger] text@.subrange(i0, i0 + plen) != pat@,
        decreases tlen - plen - i + 1,
    {
        if match_at(text, pat, i, tlen, plen) {
            assert(spec_contains(text@, pat@)) by {
                assert(text@.subrange(i as int, i + plen) == pat@);
            }
            return true;
        }
        i += 1;
    }
    false
}

/// Narrows the character range `[lo, hi)` of `s` to its content without
/// leading and trailing whitespace.
fn trim_range(s: &str, lo: usize, hi: usize, slen: usize) -> (r: (usize, usize))
    requires
        slen == s@.len(),
        lo <= hi <= slen,
    ensures
        lo <= r.0 <= r.1 <= hi,
        s@.subrange(r.0 as int, r.1 as int) == spec_trim(s@.subrange(lo as int, hi as int)),
{
    let mut a = lo;
    while a < hi && space_char(s.get_char(a))
        invariant
            slen == s@.len(),
            lo <= a <= hi <= slen,
            trim_left(s@.subrange(lo as int, hi as int)) == trim_left(
                s@.subrange(a as int, hi as int),
            ),
        decreases hi - a,
    {
        proof {
            assert(s@.subrange(a as int, hi as int).subrange(
                1,
                s@.subrange(a as int, hi as int).len() as int,
            ) =~= s@.subrange(a + 1, hi as int));
        }
        a += 1;
    }
    proof {
        assert(trim_left(s@.subrange(a as int, hi as int)) == s@.subrange(a as int, hi as int));
    }
    let mut b = hi;
    while b > a && space_char(s.get_char(b - 1))
        invariant
            slen == s@.len(),
            lo <= a <= b <= hi <= slen,
            trim_right(s@.subrange(a as int, hi as int)) == trim_right(
                s@.subrange(a as int, b as int),
            ),
        decreases b,
    {
        proof {
            assert(s@.subrange(a as int, b as int).subrange(
                0,
                s@.subrange(a as int, b as int).len() - 1,
            ) =~= s@.subrange(a as int, b - 1));
        }
        b -= 1;
    }
    proof {
        assert(trim_right(s@.subrange(a as int, b as int)) == s@.subrange(a as int, b as int));
    }
    (a, b)
}

/// Splits `s` on commas and trims each piece of its leading and trailing
/// whitespace: the parsed form of a denormalized comma-joined list field.
pub fn split_list(s: &str) -> (r: Vec<String>)
    ensures
        r@.len() == split_commas(s@).len(),
        forall|k: int| 0 <= k < r@.len() ==> (#[trigger] r@[k])@ == spec_trim(split_commas(s@)[k]),
{
    let slen = s.unicode_len();
    let mut r: Vec<String> = Vec::new();
    let ghost full = s@;
    let ghost mut raw_done: Seq<Seq<char>> = Seq::empty();
    let mut start: usize = 0;
    let mut i: usize = 0;
    proof {
        assert(full.subrange(0, slen as int) =~= full);
        assert(split_commas(full) =~~= raw_done + split_commas(full.subrange(0, slen as int)));
    }
    while i < slen
        invariant
            slen == s@.len(),
            full == s@,
            start <= i <= slen,
            forall|p: int| start <= p < i ==> full[p] != ',',
            split_commas(full) =~~= raw_done + split_commas(
                full.subrange(start as int, slen as int),
            ),
            r@.len() == raw_done.len(),
            forall|k: int|
                0 <= k < r@.len() ==> (#[trigger] r@[k])@ == spec_trim(raw_done[k]),
        decreases slen - i,
    {
        if s.get_char(i) == ',' {
            let (a, b) = trim_range(s, start, i, slen);
            r.push(String::from_str(s.substring_char(a, b)));
            proof {
                let u = full.subrange(start as int, i as int);
                let t = full.subrange(i + 1, slen as int);
                let ct = full.subrange(i as int, slen as int);
                assert(ct[0] == ',');
                assert(ct.subrange(1, ct.len() as int) =~= t);
                assert(split_commas(ct) =~~= seq![Seq::<char>::empty()] + split_commas(t));
                lemma_split_commas_len(t);
                lemma_split_absorb(u, ct);
                assert(full.subrange(start as int, slen as int) =~= u + ct);
                assert(u + split_commas(ct)[0] =~= u);
                assert(split_commas(full.subrange(start as int, slen as int)) =~~= seq![u]
                    + split_commas(t));
                raw_done = raw_done.push(u);
                assert(split_commas(full) =~~= raw_done + split_commas(
                    full.subrange(i + 1, slen as int),
                ));
            }
            start = i + 1;
        }
        i += 1;
    }
    let (a, b) = trim_range(s, start, slen, slen);
    r.push(String::from_str(s.substring_char(a, b)));
    proof {
        let u = full.subrange(start as int, slen as int);
        lemma_split_no_comma(u);
        raw_done = raw_done.push(u);
        assert(split_commas(full) =~~= raw_done);
    }
    r
}

} // verus!
