//! Character-sequence model of the string operations the library relies on.
//!
//! Strings are viewed as `Seq<char>`; every exec helper here states its
//! result over that view.

use vstd::prelude::*;

verus! {

/// Unicode `White_Space` property: what `char::is_whitespace`, `str::trim`,
/// `split_whitespace` and the regex class `\s` agree on.
pub open spec fn is_ws(c: char) -> bool {
    let u = c as u32;
    (0x09 <= u && u <= 0x0D) || u == 0x20 || u == 0x85 || u == 0xA0 || u == 0x1680
        || (0x2000 <= u && u <= 0x200A) || u == 0x2028 || u == 0x2029 || u == 0x202F
        || u == 0x205F || u == 0x3000
}

pub fn char_is_ws(c: char) -> (r: bool)
    ensures
        r == is_ws(c),
{
    let u = c as u32;
    (0x09 <= u && u <= 0x0D) || u == 0x20 || u == 0x85 || u == 0xA0 || u == 0x1680 || (0x2000
        <= u && u <= 0x200A) || u == 0x2028 || u == 0x2029 || u == 0x202F || u == 0x205F || u
        == 0x3000
}

pub open spec fn opt_int(r: Option<usize>) -> Option<int> {
    match r {
        Some(k) => Some(k as int),
        None => None,
    }
}

// ---------------------------------------------------------------------------
// Generic "first position satisfying a predicate" searches.
/// The least `k` with `p <= k < hi` and `f(k)`.
pub open spec fn first_in(p: int, hi: int, f: spec_fn(int) -> bool) -> Option<int>
    decreases hi - p,
{
    if p >= hi {
        None
    } else if f(p) {
        Some(p)
    } else {
        first_in(p + 1, hi, f)
    }
}

/// The greatest `k` with `lo <= k < hi` and `f(k)`.
pub open spec fn last_in(lo: int, hi: int, f: spec_fn(int) -> bool) -> Option<int>
    decreases hi - lo,
{
    if lo >= hi {
        None
    } else if f(hi - 1) {
        Some(hi - 1)
    } else {
        last_in(lo, hi - 1, f)
    }
}

pub proof fn lemma_first_in(p: int, hi: int, f: spec_fn(int) -> bool)
    ensures
        match first_in(p, hi, f) {
            Some(k) => p <= k < hi && f(k) && forall|j: int| p <= j < k ==> !#[trigger] f(j),
            None => forall|j: int| p <= j < hi ==> !#[trigger] f(j),
        },
    decreases hi - p,
{
    if p < hi && !f(p) {
        lemma_first_in(p + 1, hi, f);
    }
}

pub proof fn lemma_first_in_found(p: int, hi: int, f: spec_fn(int) -> bool, k: int)
    requires
        p <= k < hi,
        f(k),
        forall|j: int| p <= j < k ==> !#[trigger] f(j),
    ensures
        first_in(p, hi, f) == Some(k),
    decreases k - p,
{
    if p < k {
        lemma_first_in_found(p + 1, hi, f, k);
    }
}

pub proof fn lemma_first_in_none(p: int, hi: int, f: spec_fn(int) -> bool)
    requires
        forall|j: int| p <= j < hi ==> !#[trigger] f(j),
    ensures
        first_in(p, hi, f) is None,
    decreases hi - p,
{
    if p < hi {
        lemma_first_in_none(p + 1, hi, f);
    }
}

pub proof fn lemma_last_in(lo: int, hi: int, f: spec_fn(int) -> bool)
    ensures
        match last_in(lo, hi, f) {
            Some(k) => lo <= k < hi && f(k) && forall|j: int| k < j < hi ==> !#[trigger] f(j),
            None => forall|j: int| lo <= j < hi ==> !#[trigger] f(j),
        },
    decreases hi - lo,
{
    if lo < hi && !f(hi - 1) {
        lemma_last_in(lo, hi - 1, f);
    }
}

pub proof fn lemma_last_in_found(lo: int, hi: int, f: spec_fn(int) -> bool, k: int)
    requires
        lo <= k < hi,
        f(k),
        forall|j: int| k < j < hi ==> !#[trigger] f(j),
    ensures
        last_in(lo, hi, f) == Some(k),
    decreases hi - k,
{
    if k < hi - 1 {
        lemma_last_in_found(lo, hi - 1, f, k);
    }
}

pub proof fn lemma_last_in_none(lo: int, hi: int, f: spec_fn(int) -> bool)
    requires
        forall|j: int| lo <= j < hi ==> !#[trigger] f(j),
    ensures
        last_in(lo, hi, f) is None,
    decreases hi - lo,
{
    if lo < hi {
        lemma_last_in_none(lo, hi - 1, f);
    }
}

// ---------------------------------------------------------------------------
// Substrings.
/// `n` occurs in `h` starting at `i`.
pub open spec fn matches_at(h: Seq<char>, i: int, n: Seq<char>) -> bool {
    &&& 0 <= i
    &&& i + n.len() <= h.len()
    &&& forall|j: int| 0 <= j < n.len() ==> h[i + j] == n[j]
}

pub open spec fn contains(h: Seq<char>, n: Seq<char>) -> bool {
    exists|i: int| matches_at(h, i, n)
}

pub open spec fn matches_pred(h: Seq<char>, n: Seq<char>) -> spec_fn(int) -> bool {
    |i: int| matches_at(h, i, n)
}

/// First occurrence of `n` in `h` at or after `p` (`str::find` on the suffix).
pub open spec fn find_from(h: Seq<char>, n: Seq<char>, p: int) -> Option<int> {
    first_in(p, h.len() - n.len() + 1, matches_pred(h, n))
}

pub open spec fn starts_with(h: Seq<char>, n: Seq<char>) -> bool {
    matches_at(h, 0, n)
}

pub open spec fn ends_with(h: Seq<char>, n: Seq<char>) -> bool {
    n.len() <= h.len() && matches_at(h, h.len() - n.len(), n)
}

pub fn matches_at_exec(h: &Vec<char>, i: usize, n: &Vec<char>) -> (r: bool)
    ensures
        r == matches_at(h@, i as int, n@),
{
    if i > h.len() || n.len() > h.len() - i {
        return false;
    }
    let mut j: usize = 0;
    while j < n.len()
        invariant
            i + n@.len() <= h@.len(),
            i + n.len() <= h.len(),
            j <= n@.len(),
            forall|k: int| 0 <= k < j ==> h@[i + k] == n@[k],
        decreases n@.len() - j,
    {
        if h[i + j] != n[j] {
            return false;
        }
        j = j + 1;
    }
    true
}

pub fn find_from_exec(h: &Vec<char>, n: &Vec<char>, p: usize) -> (r: Option<usize>)
    ensures
        opt_int(r) == find_from(h@, n@, p as int),
{
    if n.len() > h.len() {
        proof {
            lemma_first_in_none(p as int, h@.len() - n@.len() + 1, matches_pred(h@, n@));
        }
        return None;
    }
    let last = h.len() - n.len();
    let mut i = p;
    while i <= last
        invariant
            last == h@.len() - n@.len(),
            p <= i,
            forall|j: int| p <= j < i ==> !#[trigger] matches_at(h@, j, n@),
        decreases last + 1 - i,
    {
        if matches_at_exec(h, i, n) {
            proof {
                lemma_first_in_found(p as int, last + 1, matches_pred(h@, n@), i as int);
            }
            return Some(i);
        }
        if i == last {
            proof {
                lemma_first_in_none(p as int, last + 1, matches_pred(h@, n@));
            }
            return None;
        }
        i = i + 1;
    }
    proof {
        lemma_first_in_none(p as int, last + 1, matches_pred(h@, n@));
    }
    None
}

pub fn contains_exec(h: &Vec<char>, n: &Vec<char>) -> (r: bool)
    ensures
        r == contains(h@, n@),
{
    let found = find_from_exec(h, n, 0);
    proof {
        let f = matches_pred(h@, n@);
        lemma_first_in(0, h@.len() - n@.len() + 1, f);
        if found is None {
            assert forall|i: int| !matches_at(h@, i, n@) by {
                if matches_at(h@, i, n@) {
                    assert(f(i));
                }
            }
        }
    }
    found.is_some()
}

pub fn starts_with_exec(h: &Vec<char>, n: &Vec<char>) -> (r: bool)
    ensures
        r == starts_with(h@, n@),
{
    matches_at_exec(h, 0, n)
}

pub fn ends_with_exec(h: &Vec<char>, n: &Vec<char>) -> (r: bool)
    ensures
        r == ends_with(h@, n@),
{
    if n.len() > h.len() {
        return false;
    }
    matches_at_exec(h, h.len() - n.len(), n)
}

/// Copy of `s[lo..hi]`.
pub fn sub_chars(s: &Vec<char>, lo: usize, hi: usize) -> (r: Vec<char>)
    requires
        lo <= hi <= s@.len(),
    ensures
        r@ == s@.subrange(lo as int, hi as int),
{
    let mut r: Vec<char> = Vec::new();
    let mut i = lo;
    while i < hi
        invariant
            lo <= i <= hi <= s@.len(),
            r@ == s@.subrange(lo as int, i as int),
        decreases hi - i,
    {
        r.push(s[i]);
        i = i + 1;
        assert(r@ =~= s@.subrange(lo as int, i as int));
    }
    r
}

pub fn append_chars(dst: &mut Vec<char>, src: &Vec<char>)
    ensures
        final(dst)@ == old(dst)@ + src@,
{
    let ghost start = dst@;
    let mut i: usize = 0;
    while i < src.len()
        invariant
            i <= src@.len(),
            dst@ == start + src@.subrange(0, i as int),
        decreases src@.len() - i,
    {
        dst.push(src[i]);
        i = i + 1;
        assert(dst@ =~= start + src@.subrange(0, i as int));
    }
    assert(src@.subrange(0, src@.len() as int) =~= src@);
}

// ---------------------------------------------------------------------------
// Conversions between `&str` / `String` and character vectors.
/// The characters of a string slice, in order.
pub fn chars_of(s: &str) -> (v: Vec<char>)
    ensures
        v@ == s@,
{
    let mut v: Vec<char> = Vec::new();
    for c in it: s.chars()
        invariant
            v@ == it.seq().take(it.index() as int),
    {
        v.push(c);
    }
    v
}

/// Calls `String::push`: the string gains the character at its end.
#[verifier::external_body]
fn push_char(s: &mut String, c: char)
    ensures
        final(s)@ == old(s)@.push(c),
{
    s.push(c);
}

pub fn string_of(v: &Vec<char>) -> (s: String)
    ensures
        s@ == v@,
{
    let mut s = String::new();
    let mut i: usize = 0;
    while i < v.len()
        invariant
            i <= v@.len(),
            s@ == v@.subrange(0, i as int),
        decreases v@.len() - i,
    {
        push_char(&mut s, v[i]);
        i = i + 1;
        assert(s@ =~= v@.subrange(0, i as int));
    }
    assert(v@.subrange(0, v@.len() as int) =~= v@);
    s
}


// ---------------------------------------------------------------------------
// Case.
pub open spec fn ascii_lower_char(c: char) -> char {
    if 'A' <= c && c <= 'Z' {
        ((c as u32) + 32) as char
    } else {
        c
    }
}

pub open spec fn ascii_lower(s: Seq<char>) -> Seq<char> {
    s.map_values(|c: char| ascii_lower_char(c))
}

/// `str::eq_ignore_ascii_case`.
pub open spec fn eq_ignore_ascii_case(a: Seq<char>, b: Seq<char>) -> bool {
    ascii_lower(a) == ascii_lower(b)
}

pub fn ascii_lower_char_exec(c: char) -> (r: char)
    ensures
        r == ascii_lower_char(c),
{
    if 'A' <= c && c <= 'Z' {
        let u = (c as u32) + 32;
        assert(u == (c as u32) + 32);
        let r = char_from_ascii_code(u);
        r
    } else {
        c
    }
}

fn char_from_ascii_code(u: u32) -> (r: char)
    requires
        0x61 <= u <= 0x7A,
    ensures
        r == u as char,
{
    let b = u as u8;
    assert(b as u32 == u);
    b as char
}

pub fn ascii_lower_exec(s: &Vec<char>) -> (r: Vec<char>)
    ensures
        r@ == ascii_lower(s@),
{
    let mut r: Vec<char> = Vec::new();
    let mut i: usize = 0;
    while i < s.len()
        invariant
            i <= s@.len(),
            r@ == ascii_lower(s@.subrange(0, i as int)),
        decreases s@.len() - i,
    {
        let c = ascii_lower_char_exec(s[i]);
        r.push(c);
        i = i + 1;
        assert(r@ =~= ascii_lower(s@.subrange(0, i as int)));
    }
    assert(s@.subrange(0, s@.len() as int) =~= s@);
    r
}

pub fn eq_ignore_ascii_case_exec(a: &Vec<char>, b: &Vec<char>) -> (r: bool)
    ensures
        r == eq_ignore_ascii_case(a@, b@),
{
    if a.len() != b.len() {
        assert(ascii_lower(a@).len() != ascii_lower(b@).len());
        return false;
    }
    let mut i: usize = 0;
    while i < a.len()
        invariant
            a@.len() == b@.len(),
            i <= a@.len(),
            forall|j: int| 0 <= j < i ==> ascii_lower_char(a@[j]) == ascii_lower_char(b@[j]),
        decreases a@.len() - i,
    {
        if ascii_lower_char_exec(a[i]) != ascii_lower_char_exec(b[i]) {
            assert(ascii_lower(a@)[i as int] != ascii_lower(b@)[i as int]);
            return false;
        }
        i = i + 1;
    }
    assert(ascii_lower(a@) =~= ascii_lower(b@));
    true
}

/// `str::to_lowercase`: the Unicode lowercase mapping of a string, a
/// function of the string alone.
pub uninterp spec fn unicode_lowercase(s: Seq<char>) -> Seq<char>;

/// Calls `str::to_lowercase`; its result is named `unicode_lowercase`. On
/// an all-ASCII string the Unicode lowercase mapping maps `A`-`Z` to `a`-`z`
/// and keeps every other character.
#[verifier::external_body]
pub(crate) fn to_lowercase(s: &Vec<char>) -> (r: Vec<char>)
    ensures
        r@ == unicode_lowercase(s@),
        (forall|i: int| 0 <= i < s@.len() ==> (#[trigger] s@[i] as u32) < 128) ==> r@ == ascii_lower(s@),
{
    let text: String = s.iter().collect();
    text.to_lowercase().chars().collect()
}

/// Regex case-insensitive match of one haystack character against one
/// pattern character written in lower case (simple case folding; the only
/// non-ASCII characters folding onto ASCII letters are KELVIN SIGN and LONG S).
pub open spec fn ci_char_eq(c: char, p: char) -> bool {
    ||| c == p
    ||| ('a' <= p && p <= 'z' && (c as u32) + 32 == (p as u32))
    ||| (p == 'k' && c == '\u{212A}')
    ||| (p == 's' && c == '\u{17F}')
}

pub open spec fn ci_matches_at(h: Seq<char>, i: int, n: Seq<char>) -> bool {
    &&& 0 <= i
    &&& i + n.len() <= h.len()
    &&& forall|j: int| 0 <= j < n.len() ==> ci_char_eq(h[i + j], n[j])
}

pub fn ci_char_eq_exec(c: char, p: char) -> (r: bool)
    ensures
        r == ci_char_eq(c, p),
{
    c == p || ('a' <= p && p <= 'z' && (c as u32) + 32 == (p as u32)) || (p == 'k' && c
        == '\u{212A}') || (p == 's' && c == '\u{17F}')
}

pub fn ci_matches_at_exec(h: &Vec<char>, i: usize, n: &Vec<char>) -> (r: bool)
    ensures
        r == ci_matches_at(h@, i as int, n@),
{
    if i > h.len() || n.len() > h.len() - i {
        return false;
    }
    let mut j: usize = 0;
    while j < n.len()
        invariant
            i + n@.len() <= h@.len(),
            i + n.len() <= h.len(),
            j <= n@.len(),
            forall|k: int| 0 <= k < j ==> ci_char_eq(h@[i + k], n@[k]),
        decreases n@.len() - j,
    {
        if !ci_char_eq_exec(h[i + j], n[j]) {
            return false;
        }
        j = j + 1;
    }
    true
}

/// First case-insensitive occurrence of `n` at or after `p`.
pub open spec fn ci_matches_pred(h: Seq<char>, n: Seq<char>) -> spec_fn(int) -> bool {
    |i: int| ci_matches_at(h, i, n)
}

pub open spec fn ci_find_from(h: Seq<char>, n: Seq<char>, p: int) -> Option<int> {
    first_in(p, h.len() - n.len() + 1, ci_matches_pred(h, n))
}

pub fn ci_find_from_exec(h: &Vec<char>, n: &Vec<char>, p: usize) -> (r: Option<usize>)
    ensures
        opt_int(r) == ci_find_from(h@, n@, p as int),
{
    if n.len() > h.len() {
        proof {
            lemma_first_in_none(p as int, h@.len() - n@.len() + 1, ci_matches_pred(h@, n@));
        }
        return None;
    }
    let last = h.len() - n.len();
    let mut i = p;
    while i <= last
        invariant
            last == h@.len() - n@.len(),
            p <= i,
            forall|j: int| p <= j < i ==> !#[trigger] ci_matches_at(h@, j, n@),
        decreases last + 1 - i,
    {
        if ci_matches_at_exec(h, i, n) {
            proof {
                lemma_first_in_found(p as int, last + 1, ci_matches_pred(h@, n@), i as int);
            }
            return Some(i);
        }
        if i == last {
            proof {
                lemma_first_in_none(p as int, last + 1, ci_matches_pred(h@, n@));
            }
            return None;
        }
        i = i + 1;
    }
    proof {
        lemma_first_in_none(p as int, last + 1, ci_matches_pred(h@, n@));
    }
    None
}

// ---------------------------------------------------------------------------
// Single characters.
/// First index `>= p` holding `c`.
pub open spec fn char_pred(h: Seq<char>, c: char) -> spec_fn(int) -> bool {
    |i: int| h[i] == c
}

pub open spec fn find_char_from(h: Seq<char>, c: char, p: int) -> Option<int> {
    first_in(p, h.len() as int, char_pred(h, c))
}

pub fn find_char_from_exec(h: &Vec<char>, c: char, p: usize) -> (r: Option<usize>)
    ensures
        opt_int(r) == find_char_from(h@, c, p as int),
{
    let mut i = p;
    while i < h.len()
        invariant
            p <= i,
            forall|j: int| p <= j < i ==> !(#[trigger] h@[j] == c),
        decreases h@.len() - i,
    {
        if h[i] == c {
            proof {
                lemma_first_in_found(p as int, h@.len() as int, char_pred(h@, c), i as int);
            }
            return Some(i);
        }
        i = i + 1;
    }
    proof {
        lemma_first_in_none(p as int, h@.len() as int, char_pred(h@, c));
    }
    None
}

pub open spec fn is_quote(c: char) -> bool {
    c == '"' || c == '\''
}

pub fn is_quote_exec(c: char) -> (r: bool)
    ensures
        r == is_quote(c),
{
    c == '"' || c == '\''
}

/// First index `>= p` holding a quote character (`["']`).
pub open spec fn quote_pred(h: Seq<char>) -> spec_fn(int) -> bool {
    |i: int| is_quote(h[i])
}

pub open spec fn find_quote_from(h: Seq<char>, p: int) -> Option<int> {
    first_in(p, h.len() as int, quote_pred(h))
}

pub fn find_quote_from_exec(h: &Vec<char>, p: usize) -> (r: Option<usize>)
    ensures
        opt_int(r) == find_quote_from(h@, p as int),
{
    let mut i = p;
    while i < h.len()
        invariant
            p <= i,
            forall|j: int| p <= j < i ==> !is_quote(#[trigger] h@[j]),
        decreases h@.len() - i,
    {
        if h[i] == '"' || h[i] == '\'' {
            proof {
                lemma_first_in_found(p as int, h@.len() as int, quote_pred(h@), i as int);
            }
            return Some(i);
        }
        i = i + 1;
    }
    proof {
        lemma_first_in_none(p as int, h@.len() as int, quote_pred(h@));
    }
    None
}

/// First index `>= p` that is not whitespace.
pub open spec fn nonws_pred(h: Seq<char>) -> spec_fn(int) -> bool {
    |i: int| !is_ws(h[i])
}

pub open spec fn skip_ws_from(h: Seq<char>, p: int) -> int {
    match first_in(p, h.len() as int, nonws_pred(h)) {
        Some(k) => k,
        None => if p <= h.len() { h.len() as int } else { p },
    }
}

pub fn skip_ws_exec(h: &Vec<char>, p: usize) -> (r: usize)
    ensures
        r == skip_ws_from(h@, p as int),
{
    if p >= h.len() {
        proof {
            lemma_first_in_none(p as int, h@.len() as int, nonws_pred(h@));
        }
        return p;
    }
    let mut i = p;
    while i < h.len()
        invariant
            p <= i <= h@.len(),
            forall|j: int| p <= j < i ==> is_ws(#[trigger] h@[j]),
        decreases h@.len() - i,
    {
        if !char_is_ws(h[i]) {
            proof {
                lemma_first_in_found(p as int, h@.len() as int, nonws_pred(h@), i as int);
            }
            return i;
        }
        i = i + 1;
    }
    proof {
        assert forall|j: int| p <= j < h@.len() implies !#[trigger] nonws_pred(h@)(j) by {
            assert(is_ws(h@[j]));
        }
        lemma_first_in_none(p as int, h@.len() as int, nonws_pred(h@));
    }
    i
}

/// Replace every `from` character by `to` (`str::replace` with a one-char pattern).
pub open spec fn replace_char(s: Seq<char>, from: char, to: char) -> Seq<char> {
    s.map_values(|c: char| if c == from { to } else { c })
}

pub fn replace_char_exec(s: &Vec<char>, from: char, to: char) -> (r: Vec<char>)
    ensures
        r@ == replace_char(s@, from, to),
{
    let mut r: Vec<char> = Vec::new();
    let mut i: usize = 0;
    while i < s.len()
        invariant
            i <= s@.len(),
            r@ == replace_char(s@.subrange(0, i as int), from, to),
        decreases s@.len() - i,
    {
        let c = s[i];
        r.push(if c == from { to } else { c });
        i = i + 1;
        assert(r@ =~= replace_char(s@.subrange(0, i as int), from, to));
    }
    assert(s@.subrange(0, s@.len() as int) =~= s@);
    r
}

// ---------------------------------------------------------------------------
// Trimming.
pub open spec fn trim_lo(s: Seq<char>) -> int {
    match first_in(0, s.len() as int, nonws_pred(s)) {
        Some(a) => a,
        None => s.len() as int,
    }
}

pub open spec fn trim_hi(s: Seq<char>) -> int {
    match last_in(0, s.len() as int, nonws_pred(s)) {
        Some(b) => b + 1,
        None => 0,
    }
}

/// `str::trim`: drop leading and trailing Unicode whitespace.
pub open spec fn trim(s: Seq<char>) -> Seq<char> {
    if trim_lo(s) < trim_hi(s) {
        s.subrange(trim_lo(s), trim_hi(s))
    } else {
        seq![]
    }
}

pub proof fn lemma_trim_bounds(s: Seq<char>)
    ensures
        0 <= trim_lo(s) <= s.len(),
        0 <= trim_hi(s) <= s.len(),
        trim(s).len() == 0 <==> forall|i: int| 0 <= i < s.len() ==> is_ws(#[trigger] s[i]),
        trim(s).len() > 0 ==> !is_ws(trim(s)[0]) && !is_ws(trim(s).last()),
{
    lemma_first_in(0, s.len() as int, nonws_pred(s));
    lemma_last_in(0, s.len() as int, nonws_pred(s));
    if trim(s).len() == 0 {
        assert forall|i: int| 0 <= i < s.len() implies is_ws(#[trigger] s[i]) by {
            if !is_ws(s[i]) {
                assert(nonws_pred(s)(i));
            }
        }
    }
    if forall|i: int| 0 <= i < s.len() ==> is_ws(#[trigger] s[i]) {
        if first_in(0, s.len() as int, nonws_pred(s)) is Some {
            let a = first_in(0, s.len() as int, nonws_pred(s))->0;
            assert(is_ws(s[a]));
        }
    }
}

pub fn trim_exec(s: &Vec<char>) -> (r: Vec<char>)
    ensures
        r@ == trim(s@),
{
    let lo = skip_ws_exec(s, 0);
    proof {
        lemma_first_in(0, s@.len() as int, nonws_pred(s@));
        lemma_last_in(0, s@.len() as int, nonws_pred(s@));
    }
    let mut hi = s.len();
    while hi > lo
        invariant
            lo <= s@.len(),
            lo <= hi <= s@.len(),
            lo == trim_lo(s@),
            forall|j: int| hi <= j < s@.len() ==> is_ws(#[trigger] s@[j]),
        decreases hi,
    {
        if !char_is_ws(s[hi - 1]) {
            proof {
                lemma_last_in_found(0, s@.len() as int, nonws_pred(s@), hi - 1);
            }
            return sub_chars(s, lo, hi);
        }
        hi = hi - 1;
    }
    proof {
        if lo < s@.len() {
            lemma_first_in(0, s@.len() as int, nonws_pred(s@));
        }
        lemma_last_in(0, s@.len() as int, nonws_pred(s@));
        assert(trim_hi(s@) <= trim_lo(s@));
    }
    Vec::new()
}

pub fn is_blank(s: &Vec<char>) -> (r: bool)
    ensures
        r == (trim(s@).len() == 0),
{
    proof {
        lemma_trim_bounds(s@);
    }
    let mut i: usize = 0;
    while i < s.len()
        invariant
            i <= s@.len(),
            forall|j: int| 0 <= j < i ==> is_ws(#[trigger] s@[j]),
        decreases s@.len() - i,
    {
        if !char_is_ws(s[i]) {
            proof {
                lemma_trim_bounds(s@);
                assert(!is_ws(s@[i as int]));
            }
            return false;
        }
        i = i + 1;
    }
    true
}


// ---------------------------------------------------------------------------
// Whitespace-separated words.
/// `str::split_whitespace`: the maximal runs of non-whitespace characters.
pub open spec fn words(s: Seq<char>) -> Seq<Seq<char>>
    decreases s.len(),
{
    if s.len() == 0 {
        seq![]
    } else {
        let t = s.drop_last();
        let c = s.last();
        let w = words(t);
        if is_ws(c) {
            w
        } else if t.len() == 0 || is_ws(t.last()) {
            w.push(seq![c])
        } else {
            w.update(w.len() - 1, w.last().push(c))
        }
    }
}

/// `[..].join(sep)`.
pub open spec fn join(ws: Seq<Seq<char>>, sep: Seq<char>) -> Seq<char>
    decreases ws.len(),
{
    if ws.len() == 0 {
        seq![]
    } else if ws.len() == 1 {
        ws[0]
    } else {
        join(ws.drop_last(), sep) + sep + ws.last()
    }
}

/// `text.split_whitespace().collect::<Vec<_>>().join(" ")`.
pub open spec fn collapse_ws(s: Seq<char>) -> Seq<char> {
    join(words(s), seq![' '])
}

pub proof fn lemma_words_nonempty(t: Seq<char>)
    requires
        t.len() > 0,
        !is_ws(t.last()),
    ensures
        words(t).len() > 0,
    decreases t.len(),
{
    let u = t.drop_last();
    if u.len() > 0 && !is_ws(u.last()) {
        lemma_words_nonempty(u);
    }
}

pub proof fn lemma_join_push(ws: Seq<Seq<char>>, x: Seq<char>, sep: Seq<char>)
    ensures
        ws.len() == 0 ==> join(ws.push(x), sep) == x,
        ws.len() > 0 ==> join(ws.push(x), sep) == join(ws, sep) + sep + x,
{
    assert(ws.push(x).drop_last() =~= ws);
}

pub proof fn lemma_join_extend_last(ws: Seq<Seq<char>>, c: char, sep: Seq<char>)
    requires
        ws.len() > 0,
    ensures
        join(ws.update(ws.len() - 1, ws.last().push(c)), sep) == join(ws, sep).push(c),
{
    let ws2 = ws.update(ws.len() - 1, ws.last().push(c));
    if ws.len() > 1 {
        assert(ws2.drop_last() =~= ws.drop_last());
        assert(join(ws2, sep) =~= join(ws, sep).push(c));
    }
}

pub fn collapse_ws_exec(s: &Vec<char>) -> (r: Vec<char>)
    ensures
        r@ == collapse_ws(s@),
{
    let mut out: Vec<char> = Vec::new();
    let mut i: usize = 0;
    while i < s.len()
        invariant
            i <= s@.len(),
            out@ == collapse_ws(s@.take(i as int)),
            out@.len() == 0 <==> words(s@.take(i as int)).len() == 0,
        decreases s@.len() - i,
    {
        let c = s[i];
        let ghost t = s@.take(i as int);
        assert(s@.take(i + 1).drop_last() =~= t);
        assert(s@.take(i + 1).last() == c);
        if !char_is_ws(c) {
            let boundary = i == 0 || char_is_ws(s[i - 1]);
            if boundary {
                proof {
                    lemma_join_push(words(t), seq![c], seq![' ']);
                }
                if out.len() > 0 {
                    out.push(' ');
                }
                out.push(c);
                proof {
                    assert(out@ =~= collapse_ws(s@.take(i + 1)));
                }
            } else {
                proof {
                    assert(t.last() == s@[i - 1]);
                    lemma_words_nonempty(t);
                    lemma_join_extend_last(words(t), c, seq![' ']);
                }
                out.push(c);
            }
        }
        i = i + 1;
    }
    assert(s@.take(s@.len() as int) =~= s@);
    out
}

// ---------------------------------------------------------------------------
// `str::replace` with a string pattern.
/// Left-to-right, non-overlapping replacement of `from` (non-empty) by `to`,
/// starting at `p`.
pub open spec fn replace_from(s: Seq<char>, from: Seq<char>, to: Seq<char>, p: int) -> Seq<char>
    decreases s.len() - p,
{
    if p < 0 || p > s.len() || from.len() == 0 {
        seq![]
    } else {
        match find_from(s, from, p) {
            Some(k) => if p <= k && k + from.len() <= s.len() {
                s.subrange(p, k) + to + replace_from(s, from, to, k + from.len())
            } else {
                seq![]
            },
            None => s.subrange(p, s.len() as int),
        }
    }
}

pub open spec fn replace_all(s: Seq<char>, from: Seq<char>, to: Seq<char>) -> Seq<char> {
    replace_from(s, from, to, 0)
}

pub fn replace_all_exec(s: &Vec<char>, from: &Vec<char>, to: &Vec<char>) -> (r: Vec<char>)
    requires
        from@.len() > 0,
    ensures
        r@ == replace_all(s@, from@, to@),
{
    let mut out: Vec<char> = Vec::new();
    let mut p: usize = 0;
    while p <= s.len()
        invariant
            from@.len() > 0,
            p <= s@.len(),
            replace_all(s@, from@, to@) == out@ + replace_from(s@, from@, to@, p as int),
        decreases s@.len() - p,
    {
        let found = find_from_exec(s, from, p);
        proof {
            lemma_first_in(p as int, s@.len() - from@.len() + 1, matches_pred(s@, from@));
        }
        match found {
            Some(k) => {
                let piece = sub_chars(s, p, k);
                let ghost before = out@;
                append_chars(&mut out, &piece);
                append_chars(&mut out, to);
                proof {
                    assert(out@ =~= before + (s@.subrange(p as int, k as int) + to@));
                }
                p = k + from.len();
            },
            None => {
                let rest = sub_chars(s, p, s.len());
                append_chars(&mut out, &rest);
                return out;
            },
        }
    }
    out
}

// ---------------------------------------------------------------------------
// UTF-8 byte lengths (`char::len_utf8`, `str::len`).
pub open spec fn char_utf8_len(c: char) -> int {
    let u = c as u32;
    if u < 0x80 {
        1
    } else if u < 0x800 {
        2
    } else if u < 0x10000 {
        3
    } else {
        4
    }
}

/// Number of bytes of the UTF-8 encoding of `s`.
pub open spec fn utf8_len(s: Seq<char>) -> int
    decreases s.len(),
{
    if s.len() == 0 {
        0
    } else {
        utf8_len(s.drop_last()) + char_utf8_len(s.last())
    }
}

/// Byte offset of the character at index `k`.
pub open spec fn byte_pos(s: Seq<char>, k: int) -> int {
    utf8_len(s.take(k))
}

pub fn char_utf8_len_exec(c: char) -> (r: usize)
    ensures
        r == char_utf8_len(c),
{
    let u = c as u32;
    if u < 0x80 {
        1
    } else if u < 0x800 {
        2
    } else if u < 0x10000 {
        3
    } else {
        4
    }
}

pub proof fn lemma_utf8_len_bounds(s: Seq<char>)
    ensures
        s.len() <= utf8_len(s) <= 4 * s.len(),
    decreases s.len(),
{
    if s.len() > 0 {
        lemma_utf8_len_bounds(s.drop_last());
    }
}

pub proof fn lemma_byte_pos_step(s: Seq<char>, k: int)
    requires
        0 <= k < s.len(),
    ensures
        byte_pos(s, k + 1) == byte_pos(s, k) + char_utf8_len(s[k]),
{
    assert(s.take(k + 1).drop_last() =~= s.take(k));
}

pub proof fn lemma_byte_pos_monotone(s: Seq<char>, j: int, k: int)
    requires
        0 <= j <= k <= s.len(),
    ensures
        byte_pos(s, j) + (k - j) <= byte_pos(s, k),
    decreases k - j,
{
    if j < k {
        lemma_byte_pos_step(s, k - 1);
        lemma_byte_pos_monotone(s, j, k - 1);
    }
}


/// The character views of a list of character vectors.
pub open spec fn vec_views(v: Seq<Vec<char>>) -> Seq<Seq<char>> {
    v.map_values(|k: Vec<char>| k@)
}

/// The character views of a list of strings.
pub open spec fn string_views(v: Seq<String>) -> Seq<Seq<char>> {
    v.map_values(|k: String| k@)
}

/// Converts a list of character vectors into strings.
pub fn strings_of(parts: &Vec<Vec<char>>) -> (out: Vec<String>)
    ensures
        string_views(out@) == vec_views(parts@),
{
    let mut out: Vec<String> = Vec::new();
    let mut i: usize = 0;
    while i < parts.len()
        invariant
            i <= parts@.len(),
            string_views(out@) == vec_views(parts@).take(i as int),
        decreases parts@.len() - i,
    {
        let s = string_of(&parts[i]);
        let ghost before = out@;
        out.push(s);
        proof {
            assert(out@ == before.push(s));
            assert(string_views(before).len() == before.len());
            assert(vec_views(parts@).take(i as int).len() == i);
            assert(before.len() == i);
            assert(string_views(out@).len() == i + 1);
            assert forall|j: int| 0 <= j < i + 1 implies string_views(out@)[j] == vec_views(parts@).take(i + 1)[j] by {
                if j < i {
                    assert(string_views(out@)[j] == out@[j]@);
                    assert(out@[j] == before[j]);
                    assert(string_views(before)[j] == before[j]@);
                } else {
                    assert(string_views(out@)[j] == out@[j]@);
                }
            }
        }
        i = i + 1;
        assert(string_views(out@) =~= vec_views(parts@).take(i as int));
    }
    assert(vec_views(parts@).take(parts@.len() as int) =~= vec_views(parts@));
    out
}


pub fn seq_eq_exec(a: &Vec<char>, b: &Vec<char>) -> (r: bool)
    ensures
        r == (a@ == b@),
{
    if a.len() != b.len() {
        return false;
    }
    let r = matches_at_exec(a, 0, b);
    proof {
        if r {
            assert(a@ =~= b@);
        }
    }
    r
}


// ---------------------------------------------------------------------------
// Byte windows: `&s[start..(start + n).min(s.len())]` with byte offsets.
pub open spec fn reach_pred(s: Seq<char>, target: int) -> spec_fn(int) -> bool {
    |k: int| byte_pos(s, k) >= target
}

/// The byte offset where a window of `n` bytes from character `e` ends.
pub open spec fn window_target(s: Seq<char>, e: int, n: int) -> int {
    if byte_pos(s, e) + n <= utf8_len(s) {
        byte_pos(s, e) + n
    } else {
        utf8_len(s)
    }
}

/// The first character index at or after `e` whose byte offset reaches the
/// window's end.
pub open spec fn window_end(s: Seq<char>, e: int, n: int) -> int {
    match first_in(e, s.len() as int + 1, reach_pred(s, window_target(s, e, n))) {
        Some(k) => k,
        None => s.len() as int,
    }
}

/// The window ends on a character boundary: slicing it does not panic.
pub open spec fn window_ok(s: Seq<char>, e: int, n: int) -> bool {
    byte_pos(s, window_end(s, e, n)) == window_target(s, e, n)
}

pub proof fn lemma_window_end(s: Seq<char>, e: int, n: int)
    requires
        0 <= e <= s.len(),
        0 <= n,
    ensures
        e <= window_end(s, e, n) <= s.len(),
{
    assert(s.take(s.len() as int) =~= s);
    lemma_byte_pos_monotone(s, e, s.len() as int);
    lemma_first_in(e, s.len() as int + 1, reach_pred(s, window_target(s, e, n)));
    if first_in(e, s.len() as int + 1, reach_pred(s, window_target(s, e, n))) is None {
        assert(reach_pred(s, window_target(s, e, n))(s.len() as int));
    }
}

/// Byte offset of character `k` (sum of the UTF-8 widths before it).
pub fn byte_pos_exec(s: &Vec<char>, k: usize) -> (r: u128)
    requires
        k <= s@.len(),
    ensures
        r == byte_pos(s@, k as int),
{
    let mut b: u128 = 0;
    let mut i: usize = 0;
    while i < k
        invariant
            i <= k <= s@.len(),
            b == byte_pos(s@, i as int),
            b <= 4 * i,
        decreases k - i,
    {
        proof {
            lemma_byte_pos_step(s@, i as int);
        }
        b = b + char_utf8_len_exec(s[i]) as u128;
        i = i + 1;
    }
    b
}

/// `(window_end, window_ok)` for a window of `n` bytes starting at character `e`.
pub fn window_exec(s: &Vec<char>, e: usize, n: u128) -> (r: (usize, bool))
    requires
        e <= s@.len(),
        n <= 1000,
    ensures
        r.0 == window_end(s@, e as int, n as int),
        r.1 == window_ok(s@, e as int, n as int),
{
    let total = byte_pos_exec(s, s.len());
    let start = byte_pos_exec(s, e);
    proof {
        assert(s@.take(s@.len() as int) =~= s@);
        lemma_byte_pos_monotone(s@, 0, e as int);
        lemma_byte_pos_monotone(s@, e as int, s@.len() as int);
        lemma_utf8_len_bounds(s@);
        lemma_utf8_len_bounds(s@.take(e as int));
    }
    let target = if start + n <= total { start + n } else { total };
    assert(target == window_target(s@, e as int, n as int));
    let mut k = e;
    let mut b = start;
    while b < target
        invariant
            e <= k <= s@.len(),
            b == byte_pos(s@, k as int),
            target == window_target(s@, e as int, n as int),
            target <= byte_pos(s@, s@.len() as int),
            b <= 4 * k,
            forall|j: int| e <= j < k ==> !(#[trigger] reach_pred(s@, target as int)(j)),
        decreases s@.len() - k,
    {
        if k == s.len() {
            assert(false);
        }
        proof {
            lemma_byte_pos_step(s@, k as int);
        }
        b = b + char_utf8_len_exec(s[k]) as u128;
        k = k + 1;
    }
    proof {
        lemma_first_in_found(e as int, s@.len() as int + 1, reach_pred(s@, target as int), k as int);
    }
    (k, b == target)
}


// ---------------------------------------------------------------------------
// Decimal notation (`u32::to_string` and friends).
pub open spec fn digit_char(d: int) -> char {
    if d == 0 { '0' } else if d == 1 { '1' } else if d == 2 { '2' } else if d == 3 { '3' }
    else if d == 4 { '4' } else if d == 5 { '5' } else if d == 6 { '6' } else if d == 7 { '7' }
    else if d == 8 { '8' } else { '9' }
}

/// The decimal digits of `n`, most significant first, without leading zeros.
pub open spec fn decimal(n: nat) -> Seq<char>
    decreases n,
{
    if n < 10 {
        seq![digit_char(n as int)]
    } else {
        decimal(n / 10).push(digit_char((n % 10) as int))
    }
}

fn digit_char_exec(d: u128) -> (r: char)
    requires
        d < 10,
    ensures
        r == digit_char(d as int),
{
    if d == 0 { '0' } else if d == 1 { '1' } else if d == 2 { '2' } else if d == 3 { '3' }
    else if d == 4 { '4' } else if d == 5 { '5' } else if d == 6 { '6' } else if d == 7 { '7' }
    else if d == 8 { '8' } else { '9' }
}

pub fn decimal_chars(n: u128) -> (r: Vec<char>)
    ensures
        r@ == decimal(n as nat),
    decreases n,
{
    if n < 10 {
        let mut v: Vec<char> = Vec::new();
        v.push(digit_char_exec(n));
        v
    } else {
        let mut v = decimal_chars(n / 10);
        v.push(digit_char_exec(n % 10));
        v
    }
}

/// `n.to_string()`.
pub fn decimal_string(n: u128) -> (r: String)
    ensures
        r@ == decimal(n as nat),
{
    string_of(&decimal_chars(n))
}

/// `s.trim_end_matches(c)`: `s` without its trailing run of `c`.
pub open spec fn trim_end_char(s: Seq<char>, c: char) -> Seq<char>
    decreases s.len(),
{
    if s.len() > 0 && s.last() == c {
        trim_end_char(s.drop_last(), c)
    } else {
        s
    }
}

pub fn trim_end_char_exec(s: &Vec<char>, c: char) -> (r: Vec<char>)
    ensures
        r@ == trim_end_char(s@, c),
{
    let mut n = s.len();
    assert(s@.take(s@.len() as int) =~= s@);
    while n > 0 && s[n - 1] == c
        invariant
            n <= s@.len(),
            trim_end_char(s@.take(n as int), c) == trim_end_char(s@, c),
        decreases n,
    {
        assert(s@.take(n as int).drop_last() =~= s@.take(n - 1));
        n = n - 1;
    }
    assert(s@.take(s@.len() as int) =~= s@);
    if n > 0 {
        assert(s@.take(n as int).last() == s@[n - 1]);
    }
    sub_chars(s, 0, n)
}

/// Concatenation of a literal, a text and a literal.
pub fn concat3(a: &str, b: &Vec<char>, c: &str) -> (r: String)
    ensures
        r@ == a@ + b@ + c@,
{
    let mut v = chars_of(a);
    append_chars(&mut v, b);
    let tail = chars_of(c);
    append_chars(&mut v, &tail);
    string_of(&v)
}


// ---------------------------------------------------------------------------
// Splitting at one character, and joining.
/// `s.split(c)`: the pieces between occurrences of `c`, in order (empty
/// pieces kept; a text without `c` is one piece).
pub open spec fn split_on(s: Seq<char>, c: char) -> Seq<Seq<char>>
    decreases s.len(),
{
    if s.len() == 0 {
        seq![seq![]]
    } else {
        let w = split_on(s.drop_last(), c);
        if s.last() == c {
            w.push(seq![])
        } else {
            w.update(w.len() - 1, w.last().push(s.last()))
        }
    }
}

pub proof fn lemma_split_on_nonempty(s: Seq<char>, c: char)
    ensures
        split_on(s, c).len() > 0,
    decreases s.len(),
{
    if s.len() > 0 {
        lemma_split_on_nonempty(s.drop_last(), c);
    }
}

pub fn split_on_exec(s: &Vec<char>, c: char) -> (r: Vec<Vec<char>>)
    ensures
        vec_views(r@) == split_on(s@, c),
{
    let mut out: Vec<Vec<char>> = Vec::new();
    let mut cur: Vec<char> = Vec::new();
    let mut i: usize = 0;
    proof {
        assert(s@.take(0) =~= Seq::<char>::empty());
        assert(vec_views(out@).push(cur@) =~= split_on(s@.take(0), c));
    }
    while i < s.len()
        invariant
            i <= s@.len(),
            split_on(s@.take(i as int), c) == vec_views(out@).push(cur@),
        decreases s@.len() - i,
    {
        let x = s[i];
        let ghost w = split_on(s@.take(i as int), c);
        assert(s@.take(i + 1).drop_last() =~= s@.take(i as int));
        assert(s@.take(i + 1).last() == x);
        if x == c {
            let ghost before = vec_views(out@);
            out.push(cur);
            cur = Vec::new();
            assert(vec_views(out@) =~= before.push(w.last()));
            assert(split_on(s@.take(i + 1), c) =~= vec_views(out@).push(cur@));
        } else {
            cur.push(x);
            assert(split_on(s@.take(i + 1), c) =~= vec_views(out@).push(cur@));
        }
        i = i + 1;
    }
    assert(s@.take(s@.len() as int) =~= s@);
    let ghost before = vec_views(out@);
    out.push(cur);
    assert(vec_views(out@) =~= before.push(cur@));
    out
}

pub fn join_exec(ws: &Vec<Vec<char>>, sep: &Vec<char>) -> (r: Vec<char>)
    ensures
        r@ == join(vec_views(ws@), sep@),
{
    let mut out: Vec<char> = Vec::new();
    let mut i: usize = 0;
    while i < ws.len()
        invariant
            i <= ws@.len(),
            out@ == join(vec_views(ws@).take(i as int), sep@),
        decreases ws@.len() - i,
    {
        let ghost t = vec_views(ws@).take(i + 1);
        assert(t.drop_last() =~= vec_views(ws@).take(i as int));
        assert(t.last() == ws@[i as int]@);
        if i > 0 {
            append_chars(&mut out, sep);
        } else {
            assert(t =~= seq![ws@[0]@]);
        }
        append_chars(&mut out, &ws[i]);
        i = i + 1;
    }
    assert(vec_views(ws@).take(ws@.len() as int) =~= vec_views(ws@));
    out
}

} // verus!
