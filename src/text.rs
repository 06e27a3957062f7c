//! Character-level helpers shared by the parser and the formatter.
use vstd::prelude::*;
use vstd::slice::slice_subrange;
use vstd::utf8::{decode_utf8, valid_utf8};

verus! {

/// `lit` stands in `s` starting at index `i`.
pub open spec fn occurs_at(s: Seq<char>, i: int, lit: Seq<char>) -> bool {
    0 <= i && i + lit.len() <= s.len() && s.subrange(i, i + lit.len()) == lit
}

/// The first index at or after `i` where `lit` stands in `s`.
pub open spec fn find_from(s: Seq<char>, i: int, lit: Seq<char>) -> Option<int>
    decreases s.len() + 1 - i,
{
    if i < 0 || i + lit.len() > s.len() {
        None
    } else if occurs_at(s, i, lit) {
        Some(i)
    } else {
        find_from(s, i + 1, lit)
    }
}

pub proof fn lemma_find_from_bounds(s: Seq<char>, i: int, lit: Seq<char>)
    ensures
        find_from(s, i, lit) is Some ==> {
            let k = find_from(s, i, lit)->0;
            &&& i <= k
            &&& k + lit.len() <= s.len()
            &&& occurs_at(s, k, lit)
            &&& forall|j: int| i <= j < k ==> !occurs_at(s, j, lit)
        },
    decreases s.len() + 1 - i,
{
    if !(i < 0 || i + lit.len() > s.len()) && !occurs_at(s, i, lit) {
        lemma_find_from_bounds(s, i + 1, lit);
    }
}

pub open spec fn is_digit(c: char) -> bool {
    '0' <= c && c <= '9'
}

pub open spec fn is_alphanumeric(c: char) -> bool {
    ('0' <= c && c <= '9') || ('a' <= c && c <= 'z') || ('A' <= c && c <= 'Z')
}

/// The end of the run of characters from `i` on that satisfy `p`.
pub open spec fn run_end(s: Seq<char>, i: int, p: spec_fn(char) -> bool) -> int
    decreases s.len() - i,
{
    if 0 <= i < s.len() && p(s[i]) {
        run_end(s, i + 1, p)
    } else {
        i
    }
}

pub proof fn lemma_run_end_bounds(s: Seq<char>, i: int, p: spec_fn(char) -> bool)
    requires
        0 <= i <= s.len(),
    ensures
        i <= run_end(s, i, p) <= s.len(),
        forall|k: int| i <= k < run_end(s, i, p) ==> p(#[trigger] s[k]),
    decreases s.len() - i,
{
    if 0 <= i < s.len() && p(s[i]) {
        lemma_run_end_bounds(s, i + 1, p);
    }
}

/// The characters of `s`, one by one.
pub fn chars_of(s: &str) -> (r: Vec<char>)
    ensures
        r@ == s@,
{
    let mut r: Vec<char> = Vec::new();
    for c in it: s.chars()
        invariant
            r@ == it.seq().take(it.index() as int),
            it.seq() == s@,
    {
        r.push(c);
    }
    r
}

/// Relies on `String`'s `FromIterator<&char>`: the string holds the given
/// characters in order.
#[verifier::external_body]
pub(crate) fn string_from(cs: &[char]) -> (r: String)
    ensures
        r@ == cs@,
{
    cs.iter().collect()
}

/// The characters of `s` between `from` and `to`, as a `String`.
pub fn substring(s: &[char], from: usize, to: usize) -> (r: String)
    requires
        from <= to <= s@.len(),
    ensures
        r@ == s@.subrange(from as int, to as int),
{
    string_from(slice_subrange(s, from, to))
}

/// Whether `lit` stands in `s` at index `pos`.
pub fn occurs(s: &[char], pos: usize, lit: &str) -> (r: bool)
    requires
        pos <= s@.len(),
    ensures
        r == occurs_at(s@, pos as int, lit@),
{
    let n = lit.unicode_len();
    if n > s.len() - pos {
        return false;
    }
    let mut i: usize = 0;
    while i < n
        invariant
            i <= n,
            n == lit@.len(),
            pos + n <= s.len(),
            forall|j: int| 0 <= j < i ==> s@[pos + j] == lit@[j],
        decreases n - i,
    {
        if s[pos + i] != lit.get_char(i) {
            assert(s@.subrange(pos as int, pos + n)[i as int] != lit@[i as int]);
            return false;
        }
        i = i + 1;
    }
    assert(s@.subrange(pos as int, pos + n) =~= lit@);
    true
}

/// The first index at or after `from` where `lit` stands in `s`.
pub fn find(s: &[char], from: usize, lit: &str) -> (r: Option<usize>)
    requires
        from <= s@.len(),
    ensures
        r matches Some(k) ==> find_from(s@, from as int, lit@) == Some(k as int),
        r is None ==> find_from(s@, from as int, lit@) is None,
{
    let n = lit.unicode_len();
    let mut i = from;
    while n <= s.len() - i
        invariant
            from <= i <= s.len(),
            n == lit@.len(),
            find_from(s@, from as int, lit@) == find_from(s@, i as int, lit@),
        decreases s@.len() - i,
    {
        if occurs(s, i, lit) {
            return Some(i);
        }
        if n == 0 {
            assert(s@.subrange(i as int, i as int) =~= lit@);
        }
        i = i + 1;
    }
    None
}

/// Relies on `String::from_utf8`: it succeeds exactly where the bytes are
/// valid UTF-8, and the string then holds the characters they encode.
#[verifier::external_body]
fn utf8_string(bytes: Vec<u8>) -> (r: Option<String>)
    ensures
        r is Some <==> valid_utf8(bytes@),
        r matches Some(s) ==> s@ == decode_utf8(bytes@),
{
    String::from_utf8(bytes).ok()
}

/// The text of a test run's output, from the bytes that were read; `None`
/// where they are not UTF-8.
pub fn parse_data(bytes: Vec<u8>) -> (r: Option<String>)
    ensures
        r is Some <==> valid_utf8(bytes@),
        r matches Some(s) ==> s@ == decode_utf8(bytes@),
{
    utf8_string(bytes)
}

} // verus!
