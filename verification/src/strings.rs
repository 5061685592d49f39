//! Character-sequence utilities: substring search, literal replacement,
//! ASCII case folding and trimming. These are the ground the templating and
//! URL-mapping layers stand on.

use vstd::prelude::*;

verus! {

/// Relies on `String::push`: appends the given character to the end of the
/// string, as its documentation states.
pub assume_specification[ String::push ](s: &mut String, c: char)
    ensures
        final(s)@ == old(s)@.push(c),
;

/// `pat` occurs in `text` starting at index `i`.
pub open spec fn occurs_at(text: Seq<char>, pat: Seq<char>, i: int) -> bool {
    0 <= i && i + pat.len() <= text.len() && text.subrange(i, i + pat.len() as int) == pat
}

/// `pat` occurs somewhere in `text`.
pub open spec fn occurs_in(text: Seq<char>, pat: Seq<char>) -> bool {
    exists|i: int| occurs_at(text, pat, i)
}

/// Left-to-right, non-overlapping replacement of every occurrence of `pat`
/// in `text` by `val`. An empty pattern replaces nothing.
pub open spec fn replace_seq(text: Seq<char>, pat: Seq<char>, val: Seq<char>) -> Seq<char>
    decreases text.len(),
{
    if pat.len() == 0 || text.len() < pat.len() {
        text
    } else if text.subrange(0, pat.len() as int) == pat {
        val + replace_seq(text.skip(pat.len() as int), pat, val)
    } else {
        seq![text[0]] + replace_seq(text.skip(1), pat, val)
    }
}

/// Whether `pat` matches `text` at character position `i`.
pub fn matches_at(text: &str, pat: &str, i: usize) -> (b: bool)
    requires
        i + pat@.len() <= text@.len(),
    ensures
        b == (text@.subrange(i as int, i + pat@.len()) == pat@),
{
    let n = text.unicode_len();
    let m = pat.unicode_len();
    let mut j: usize = 0;
    while j < m
        invariant
            j <= m,
            m == pat@.len(),
            n == text@.len(),
            i + m <= text@.len(),
            forall|k: int| 0 <= k < j ==> text@[i + k] == pat@[k],
        decreases m - j,
    {
        if text.get_char(i + j) != pat.get_char(j) {
            proof {
                assert(text@.subrange(i as int, i + pat@.len())[j as int] == text@[i + j]);
            }
            return false;
        }
        j = j + 1;
    }
    proof {
        assert(text@.subrange(i as int, i + pat@.len()) =~= pat@);
    }
    true
}

/// Replace every occurrence of `pat` in `text` by `val`, scanning left to
/// right without overlap, as `str::replace` does.
pub fn replace_all(text: &str, pat: &str, val: &str) -> (r: String)
    ensures
        r@ == replace_seq(text@, pat@, val@),
{
    let n = text.unicode_len();
    let m = pat.unicode_len();
    if m == 0 || n < m {
        return String::from_str(text);
    }
    let mut out = String::new();
    let mut i: usize = 0;
    proof {
        assert(text@.skip(0) =~= text@);
        assert(out@ + replace_seq(text@, pat@, val@) =~= replace_seq(text@, pat@, val@));
    }
    while i <= n - m
        invariant
            1 <= m == pat@.len(),
            m <= n == text@.len(),
            i <= n,
            replace_seq(text@, pat@, val@) == out@ + replace_seq(
                text@.skip(i as int),
                pat@,
                val@,
            ),
        decreases n - i,
    {
        if matches_at(text, pat, i) {
            out.append(val);
            proof {
                let rest = text@.skip(i as int);
                assert(rest.subrange(0, m as int) =~= text@.subrange(i as int, i + m));
                assert(rest.skip(m as int) =~= text@.skip(i + m));
            }
            i = i + m;
        } else {
            let piece = text.substring_char(i, i + 1);
            out.append(piece);
            proof {
                let rest = text@.skip(i as int);
                assert(rest.subrange(0, m as int) =~= text@.subrange(i as int, i + m));
                assert(piece@ =~= seq![rest[0]]);
                assert(rest.skip(1) =~= text@.skip(i + 1));
            }
            i = i + 1;
        }
    }
    let tail = text.substring_char(i, n);
    out.append(tail);
    proof {
        assert(text@.skip(i as int) =~= tail@);
    }
    out
}

/// Whether two text slices hold the same characters.
pub fn str_eq(a: &str, b: &str) -> (r: bool)
    ensures
        r == (a@ == b@),
{
    let n = a.unicode_len();
    let m = b.unicode_len();
    if n != m {
        return false;
    }
    let mut i: usize = 0;
    while i < n
        invariant
            i <= n == a@.len(),
            n == b@.len(),
            forall|k: int| 0 <= k < i ==> a@[k] == b@[k],
        decreases n - i,
    {
        if a.get_char(i) != b.get_char(i) {
            return false;
        }
        i = i + 1;
    }
    proof {
        assert(a@ =~= b@);
    }
    true
}

/// `text` starts with `pat`.
pub fn starts_with_lit(text: &str, pat: &str) -> (b: bool)
    ensures
        b == (pat@.len() <= text@.len() && text@.subrange(0, pat@.len() as int) == pat@),
{
    let n = text.unicode_len();
    let m = pat.unicode_len();
    if m > n {
        return false;
    }
    matches_at(text, pat, 0)
}

/// `pat` occurs somewhere in `text` (naive scan).
pub fn contains_lit(text: &str, pat: &str) -> (b: bool)
    requires
        pat@.len() >= 1,
    ensures
        b == occurs_in(text@, pat@),
{
    let n = text.unicode_len();
    let m = pat.unicode_len();
    if m > n {
        proof {
            assert(forall|i: int| !occurs_at(text@, pat@, i));
        }
        return false;
    }
    let mut i: usize = 0;
    while i <= n - m
        invariant
            1 <= m == pat@.len(),
            m <= n == text@.len(),
            i <= n - m + 1,
            forall|k: int| 0 <= k < i ==> !occurs_at(text@, pat@, k),
        decreases n - i,
    {
        if matches_at(text, pat, i) {
            proof {
                assert(occurs_at(text@, pat@, i as int));
            }
            return true;
        }
        i = i + 1;
    }
    proof {
        assert(forall|k: int| k >= i ==> !occurs_at(text@, pat@, k));
    }
    false
}

/// A pattern that holds a character absent from the text never occurs in it.
pub proof fn lemma_no_char_no_occurrence(text: Seq<char>, pat: Seq<char>, c: char)
    requires
        pat.contains(c),
        !text.contains(c),
    ensures
        !occurs_in(text, pat),
{
    assert forall|i: int| !occurs_at(text, pat, i) by {
        if occurs_at(text, pat, i) {
            let k = choose|k: int| 0 <= k < pat.len() && pat[k] == c;
            assert(text.subrange(i, i + pat.len() as int)[k] == text[i + k]);
            assert(text[i + k] == c);
            assert(text.contains(c));
        }
    }
}

/// Replacing a pattern that does not occur leaves the text unchanged.
pub proof fn lemma_replace_absent(text: Seq<char>, pat: Seq<char>, val: Seq<char>)
    requires
        pat.len() > 0,
        !occurs_in(text, pat),
    ensures
        replace_seq(text, pat, val) == text,
    decreases text.len(),
{
    if text.len() < pat.len() {
    } else if text.subrange(0, pat.len() as int) == pat {
        assert(occurs_at(text, pat, 0));
    } else {
        assert forall|i: int| !occurs_at(text.skip(1), pat, i) by {
            if occurs_at(text.skip(1), pat, i) {
                assert(text.subrange(i + 1, i + 1 + pat.len()) =~= text.skip(1).subrange(
                    i,
                    i + pat.len() as int,
                ));
                assert(occurs_at(text, pat, i + 1));
            }
        }
        lemma_replace_absent(text.skip(1), pat, val);
        assert(seq![text[0]] + text.skip(1) =~= text);
    }
}

/// The ASCII lower-case image of a character.
pub open spec fn lower_char(c: char) -> char {
    if 'A' <= c <= 'Z' {
        ((c as u8) + 0x20) as char
    } else {
        c
    }
}

/// The ASCII upper-case image of a character.
pub open spec fn upper_char(c: char) -> char {
    if 'a' <= c <= 'z' {
        ((c as u8) - 0x20) as char
    } else {
        c
    }
}

/// ASCII lower-casing of a whole text; characters outside `A`..`Z` are kept.
pub open spec fn lower_seq(s: Seq<char>) -> Seq<char> {
    s.map_values(|c: char| lower_char(c))
}

/// ASCII upper-casing of a whole text; characters outside `a`..`z` are kept.
pub open spec fn upper_seq(s: Seq<char>) -> Seq<char> {
    s.map_values(|c: char| upper_char(c))
}

/// ASCII-lower-case a string, as configuration keywords are compared.
pub fn ascii_lower(s: &str) -> (r: String)
    ensures
        r@ == lower_seq(s@),
{
    let n = s.unicode_len();
    let mut out = String::new();
    let mut i: usize = 0;
    while i < n
        invariant
            i <= n,
            n == s@.len(),
            out@ == lower_seq(s@).take(i as int),
        decreases n - i,
    {
        let c = s.get_char(i);
        if 'A' <= c && c <= 'Z' {
            let lc = ((c as u8) + 0x20) as char;
            out.push(lc);
        } else {
            out.push(c);
        }
        proof {
            assert(out@ =~= lower_seq(s@).take(i + 1));
        }
        i = i + 1;
    }
    proof {
        assert(lower_seq(s@).take(n as int) =~= lower_seq(s@));
    }
    out
}

/// ASCII-upper-case a string, as HTTP methods are normalised.
pub fn ascii_upper(s: &str) -> (r: String)
    ensures
        r@ == upper_seq(s@),
{
    let n = s.unicode_len();
    let mut out = String::new();
    let mut i: usize = 0;
    while i < n
        invariant
            i <= n,
            n == s@.len(),
            out@ == upper_seq(s@).take(i as int),
        decreases n - i,
    {
        let c = s.get_char(i);
        if 'a' <= c && c <= 'z' {
            let uc = ((c as u8) - 0x20) as char;
            out.push(uc);
        } else {
            out.push(c);
        }
        proof {
            assert(out@ =~= upper_seq(s@).take(i + 1));
        }
        i = i + 1;
    }
    proof {
        assert(upper_seq(s@).take(n as int) =~= upper_seq(s@));
    }
    out
}

} // verus!
