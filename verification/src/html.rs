//! The HTML grammar the scrapers read: where tags, attributes and the other
//! scraped fragments start and end.
//!
//! Each construct is a matcher: `m(i)` is the end of the construct that starts
//! at `i`, if one does. `scan` lists the leftmost, non-overlapping matches
//! from a position on, the way a regex `find_iter` walks a haystack.

use vstd::prelude::*;
use crate::text::{
    ci_find_from, ci_find_from_exec, ci_matches_at, ci_matches_at_exec, find_char_from,
    find_char_from_exec, find_quote_from, find_quote_from_exec, first_in, is_quote, is_ws,
    lemma_first_in, lemma_first_in_found, lemma_first_in_none, opt_int, skip_ws_exec,
    skip_ws_from, sub_chars, ascii_lower, ascii_lower_exec, matches_at, matches_at_exec,
};

verus! {

pub open spec fn some_pred(m: spec_fn(int) -> Option<int>) -> spec_fn(int) -> bool {
    |k: int| m(k) is Some
}

/// Leftmost non-overlapping matches starting in `[p, hi)`.
pub open spec fn scan(p: int, hi: int, m: spec_fn(int) -> Option<int>) -> Seq<(int, int)>
    decreases hi - p,
{
    if p >= hi {
        seq![]
    } else {
        match first_in(p, hi, some_pred(m)) {
            None => seq![],
            Some(k) => {
                let e = m(k)->0;
                if p <= k && k < e && e <= hi {
                    seq![(k, e)] + scan(e, hi, m)
                } else {
                    seq![]
                }
            },
        }
    }
}

pub proof fn lemma_scan_step(p: int, hi: int, m: spec_fn(int) -> Option<int>, k: int)
    requires
        p <= k < hi,
        m(k) is Some,
        k < m(k)->0 <= hi,
        forall|j: int| p <= j < k ==> !(#[trigger] some_pred(m)(j)),
    ensures
        scan(p, hi, m) == seq![(k, m(k)->0)] + scan(m(k)->0, hi, m),
{
    lemma_first_in_found(p, hi, some_pred(m), k);
}

pub proof fn lemma_scan_done(p: int, hi: int, m: spec_fn(int) -> Option<int>)
    requires
        forall|j: int| p <= j < hi ==> !(#[trigger] some_pred(m)(j)),
    ensures
        scan(p, hi, m) == Seq::<(int, int)>::empty(),
{
    if p < hi {
        lemma_first_in_none(p, hi, some_pred(m));
    }
}

// ---------------------------------------------------------------------------
// `(?is)<NAME\b[^>]*>`: an opening tag with a given (lower-case) name.
/// Regex `\w` (UTS#18 word character), as the regex crate decides it.
pub uninterp spec fn regex_word_char(c: char) -> bool;

/// Calls `regex_syntax::is_word_character`, the `\w` test behind regex `\b`;
/// its answer is named `regex_word_char`.
#[verifier::external_body]
pub(crate) fn is_word_char(c: char) -> (r: bool)
    ensures
        r == regex_word_char(c),
{
    regex_syntax::is_word_character(c)
}

/// Word boundary right after a word character, at `j`.
pub open spec fn boundary_after_word(s: Seq<char>, j: int) -> bool {
    j == s.len() || !regex_word_char(s[j])
}

pub open spec fn named_tag_at(s: Seq<char>, name: Seq<char>, i: int) -> Option<int> {
    let j = i + 1 + name.len();
    if 0 <= i < s.len() && s[i] == '<' && ci_matches_at(s, i + 1, name) && boundary_after_word(s, j) {
        match find_char_from(s, '>', j) {
            Some(k) => Some(k + 1),
            None => None,
        }
    } else {
        None
    }
}

pub proof fn lemma_named_tag_at(s: Seq<char>, name: Seq<char>, i: int)
    ensures
        named_tag_at(s, name, i) matches Some(e) ==> i < e <= s.len(),
{
    let j = i + 1 + name.len();
    lemma_first_in(j, s.len() as int, crate::text::char_pred(s, '>'));
}

pub fn named_tag_at_exec(s: &Vec<char>, name: &Vec<char>, i: usize) -> (r: Option<usize>)
    ensures
        opt_int(r) == named_tag_at(s@, name@, i as int),
{
    proof {
        lemma_named_tag_at(s@, name@, i as int);
    }
    if i >= s.len() || s[i] != '<' {
        return None;
    }
    if !ci_matches_at_exec(s, i + 1, name) {
        return None;
    }
    let j = i + 1 + name.len();
    if j < s.len() && is_word_char(s[j]) {
        return None;
    }
    match find_char_from_exec(s, '>', j) {
        Some(k) => Some(k + 1),
        None => None,
    }
}

// ---------------------------------------------------------------------------
// Attributes: `([A-Za-z_:][-A-Za-z0-9_:.]*)\s*=\s*["']([^"']*)["']`.
pub open spec fn is_attr_name_start(c: char) -> bool {
    ('A' <= c && c <= 'Z') || ('a' <= c && c <= 'z') || c == '_' || c == ':'
}

pub open spec fn is_attr_name_char(c: char) -> bool {
    is_attr_name_start(c) || ('0' <= c && c <= '9') || c == '-' || c == '.'
}

pub open spec fn not_name_pred(t: Seq<char>) -> spec_fn(int) -> bool {
    |x: int| !is_attr_name_char(t[x])
}

/// End of the run of attribute-name characters that starts at `i`.
pub open spec fn name_run_end(t: Seq<char>, i: int) -> int {
    match first_in(i, t.len() as int, not_name_pred(t)) {
        Some(j) => j,
        None => t.len() as int,
    }
}

/// `(name_end, value_start, value_end, end)` of the attribute starting at `i`.
pub open spec fn attr_parts(t: Seq<char>, i: int) -> Option<(int, int, int, int)> {
    if 0 <= i < t.len() && is_attr_name_start(t[i]) {
        let j = name_run_end(t, i + 1);
        let k = skip_ws_from(t, j);
        if k < t.len() && t[k] == '=' {
            let m = skip_ws_from(t, k + 1);
            if m < t.len() && is_quote(t[m]) {
                match find_quote_from(t, m + 1) {
                    Some(q) => Some((j, m + 1, q, q + 1)),
                    None => None,
                }
            } else {
                None
            }
        } else {
            None
        }
    } else {
        None
    }
}

pub open spec fn attr_at(t: Seq<char>, i: int) -> Option<int> {
    match attr_parts(t, i) {
        Some(parts) => Some(parts.3),
        None => None,
    }
}

pub open spec fn attr_match(t: Seq<char>) -> spec_fn(int) -> Option<int> {
    |i: int| attr_at(t, i)
}

pub open spec fn attr_name(t: Seq<char>, i: int) -> Seq<char> {
    ascii_lower(t.subrange(i, attr_parts(t, i).unwrap().0))
}

pub open spec fn attr_value(t: Seq<char>, i: int) -> Seq<char> {
    t.subrange(attr_parts(t, i).unwrap().1, attr_parts(t, i).unwrap().2)
}

/// Value of the last attribute named `name` among `spans` (later attributes
/// overwrite earlier ones, as inserting into a map does).
pub open spec fn attr_lookup(t: Seq<char>, spans: Seq<(int, int)>, name: Seq<char>) -> Option<Seq<char>>
    decreases spans.len(),
{
    if spans.len() == 0 {
        None
    } else if attr_name(t, spans.last().0) == name {
        Some(attr_value(t, spans.last().0))
    } else {
        attr_lookup(t, spans.drop_last(), name)
    }
}

/// What `parse_tag_attributes(tag).get(name)` gives.
pub open spec fn tag_attr(t: Seq<char>, name: Seq<char>) -> Option<Seq<char>> {
    attr_lookup(t, scan(0, t.len() as int, attr_match(t)), name)
}

pub proof fn lemma_skip_ws_from(h: Seq<char>, p: int)
    ensures
        0 <= p ==> p <= skip_ws_from(h, p),
        0 <= p <= h.len() ==> skip_ws_from(h, p) <= h.len(),
{
    lemma_first_in(p, h.len() as int, crate::text::nonws_pred(h));
}

pub proof fn lemma_attr_parts(t: Seq<char>, i: int)
    ensures
        attr_parts(t, i) matches Some(x) ==> i < x.0 <= x.1 <= x.2 < x.3 <= t.len(),
{
    if 0 <= i < t.len() && is_attr_name_start(t[i]) {
        let j = name_run_end(t, i + 1);
        lemma_first_in(i + 1, t.len() as int, not_name_pred(t));
        lemma_skip_ws_from(t, j);
        let k = skip_ws_from(t, j);
        if k < t.len() && t[k] == '=' {
            lemma_skip_ws_from(t, k + 1);
            let m = skip_ws_from(t, k + 1);
            lemma_first_in(m + 1, t.len() as int, crate::text::quote_pred(t));
        }
    }
}

fn is_attr_name_start_exec(c: char) -> (r: bool)
    ensures
        r == is_attr_name_start(c),
{
    ('A' <= c && c <= 'Z') || ('a' <= c && c <= 'z') || c == '_' || c == ':'
}

fn is_attr_name_char_exec(c: char) -> (r: bool)
    ensures
        r == is_attr_name_char(c),
{
    is_attr_name_start_exec(c) || ('0' <= c && c <= '9') || c == '-' || c == '.'
}

fn name_run_end_exec(t: &Vec<char>, i: usize) -> (r: usize)
    requires
        i <= t@.len(),
    ensures
        r == name_run_end(t@, i as int),
{
    let mut j = i;
    while j < t.len()
        invariant
            i <= j <= t@.len(),
            forall|x: int| i <= x < j ==> !(#[trigger] not_name_pred(t@)(x)),
        decreases t@.len() - j,
    {
        if !is_attr_name_char_exec(t[j]) {
            proof {
                lemma_first_in_found(i as int, t@.len() as int, not_name_pred(t@), j as int);
            }
            return j;
        }
        j = j + 1;
    }
    proof {
        lemma_first_in_none(i as int, t@.len() as int, not_name_pred(t@));
    }
    j
}

/// `(name_end, value_start, value_end, end)` of the attribute starting at `i`.
pub fn attr_parts_exec(t: &Vec<char>, i: usize) -> (r: Option<(usize, usize, usize, usize)>)
    ensures
        match r {
            Some(x) => attr_parts(t@, i as int) == Some((x.0 as int, x.1 as int, x.2 as int, x.3 as int)),
            None => attr_parts(t@, i as int) is None,
        },
{
    proof {
        lemma_attr_parts(t@, i as int);
    }
    if i >= t.len() || !is_attr_name_start_exec(t[i]) {
        return None;
    }
    let j = name_run_end_exec(t, i + 1);
    let k = skip_ws_exec(t, j);
    proof {
        lemma_first_in(i + 1, t@.len() as int, not_name_pred(t@));
        lemma_skip_ws_from(t@, j as int);
    }
    if k >= t.len() || t[k] != '=' {
        return None;
    }
    let m = skip_ws_exec(t, k + 1);
    proof {
        lemma_skip_ws_from(t@, k + 1);
    }
    if m >= t.len() || !(t[m] == '"' || t[m] == '\'') {
        return None;
    }
    match find_quote_from_exec(t, m + 1) {
        Some(q) => {
            proof {
                lemma_first_in(m + 1, t@.len() as int, crate::text::quote_pred(t@));
            }
            Some((j, m + 1, q, q + 1))
        },
        None => None,
    }
}

/// The first attribute starting at or after `p`.
fn next_attr(t: &Vec<char>, p: usize) -> (r: Option<(usize, (usize, usize, usize, usize))>)
    ensures
        match r {
            Some((k, x)) => p <= k && attr_parts(t@, k as int) == Some((x.0 as int, x.1 as int, x.2 as int, x.3 as int))
                && forall|j: int| p <= j < k ==> !(#[trigger] some_pred(attr_match(t@))(j)),
            None => forall|j: int| p <= j < t@.len() ==> !(#[trigger] some_pred(attr_match(t@))(j)),
        },
{
    let mut k = p;
    while k < t.len()
        invariant
            p <= k,
            forall|j: int| p <= j < k ==> !(#[trigger] some_pred(attr_match(t@))(j)),
        decreases t@.len() - k,
    {
        match attr_parts_exec(t, k) {
            Some(x) => {
                return Some((k, x));
            },
            None => {},
        }
        k = k + 1;
    }
    None
}

/// `parse_tag_attributes(tag).get(name)`: the value of the last attribute of
/// `tag` whose ASCII-lower-cased name is `name`.
pub fn tag_attr_exec(t: &Vec<char>, name: &Vec<char>) -> (r: Option<Vec<char>>)
    ensures
        match r {
            Some(v) => tag_attr(t@, name@) == Some(v@),
            None => tag_attr(t@, name@) is None,
        },
{
    let mut found: Option<Vec<char>> = None;
    let mut p: usize = 0;
    let ghost mut done: Seq<(int, int)> = seq![];
    let ghost hi = t@.len() as int;
    while p < t.len()
        invariant
            hi == t@.len(),
            p <= t@.len(),
            scan(0, hi, attr_match(t@)) == done + scan(p as int, hi, attr_match(t@)),
            forall|x: int| 0 <= x < done.len() ==> attr_parts(t@, #[trigger] done[x].0) is Some,
            match found {
                Some(v) => attr_lookup(t@, done, name@) == Some(v@),
                None => attr_lookup(t@, done, name@) is None,
            },
        decreases t@.len() - p,
    {
        match next_attr(t, p) {
            None => {
                proof {
                    lemma_scan_done(p as int, hi, attr_match(t@));
                    assert(done + scan(p as int, hi, attr_match(t@)) =~= done);
                }
                return found;
            },
            Some((k, x)) => {
                proof {
                    lemma_attr_parts(t@, k as int);
                    lemma_scan_step(p as int, hi, attr_match(t@), k as int);
                }
                let n = sub_chars(t, k, x.0);
                let lowered = ascii_lower_exec(&n);
                let ghost new_done = done.push((k as int, x.3 as int));
                proof {
                    assert(new_done.drop_last() =~= done);
                    assert(new_done.last() == (k as int, x.3 as int));
                    assert(done + scan(p as int, hi, attr_match(t@)) =~= new_done + scan(x.3 as int, hi, attr_match(t@)));
                }
                if crate::text::seq_eq_exec(&lowered, name) {
                    found = Some(sub_chars(t, x.1, x.2));
                }
                proof {
                    done = new_done;
                }
                p = x.3;
            },
        }
    }
    proof {
        if p >= t@.len() {
            lemma_scan_done(p as int, hi, attr_match(t@));
            assert(done + scan(p as int, hi, attr_match(t@)) =~= done);
        }
    }
    found
}


// ---------------------------------------------------------------------------
// Tag removal: `(?is)<[^>]+>` replaced by one space.
pub open spec fn any_tag_at(s: Seq<char>, i: int) -> Option<int> {
    if 0 <= i && i + 1 < s.len() && s[i] == '<' && s[i + 1] != '>' {
        match find_char_from(s, '>', i + 2) {
            Some(k) => Some(k + 1),
            None => None,
        }
    } else {
        None
    }
}

pub open spec fn any_tag(s: Seq<char>) -> spec_fn(int) -> Option<int> {
    |i: int| any_tag_at(s, i)
}

/// `s[p..]` with every tag replaced by a single space.
pub open spec fn strip_tags_from(s: Seq<char>, p: int) -> Seq<char>
    decreases s.len() - p,
{
    if p < 0 || p > s.len() {
        seq![]
    } else {
        match first_in(p, s.len() as int, some_pred(any_tag(s))) {
            None => s.subrange(p, s.len() as int),
            Some(k) => {
                let e = any_tag_at(s, k)->0;
                if p <= k && k < e && e <= s.len() {
                    s.subrange(p, k) + seq![' '] + strip_tags_from(s, e)
                } else {
                    seq![]
                }
            },
        }
    }
}

/// `strip_tags`: every tag replaced by a single space.
pub open spec fn strip_tags(s: Seq<char>) -> Seq<char> {
    strip_tags_from(s, 0)
}

pub proof fn lemma_any_tag_at(s: Seq<char>, i: int)
    ensures
        any_tag_at(s, i) matches Some(e) ==> i < e <= s.len(),
{
    lemma_first_in(i + 2, s.len() as int, crate::text::char_pred(s, '>'));
}

fn any_tag_at_exec(s: &Vec<char>, i: usize) -> (r: Option<usize>)
    ensures
        opt_int(r) == any_tag_at(s@, i as int),
{
    proof {
        lemma_any_tag_at(s@, i as int);
    }
    if i < s.len() && i + 1 < s.len() && s[i] == '<' && s[i + 1] != '>' {
        match find_char_from_exec(s, '>', i + 2) {
            Some(k) => Some(k + 1),
            None => None,
        }
    } else {
        None
    }
}

pub fn strip_tags_exec(s: &Vec<char>) -> (r: Vec<char>)
    ensures
        r@ == strip_tags(s@),
{
    let mut out: Vec<char> = Vec::new();
    let mut p: usize = 0;
    while p <= s.len()
        invariant
            p <= s@.len(),
            strip_tags(s@) == out@ + strip_tags_from(s@, p as int),
        decreases s@.len() - p,
    {
        let mut k = p;
        let mut hit: Option<usize> = None;
        while k < s.len()
            invariant_except_break
                hit is None,
            invariant
                p <= k <= s@.len(),
                forall|j: int| p <= j < k ==> !(#[trigger] some_pred(any_tag(s@))(j)),
            ensures
                hit matches Some(e) ==> k < s@.len() && any_tag_at(s@, k as int) == Some(e as int),
                hit is None ==> k == s@.len(),
            decreases s@.len() - k,
        {
            match any_tag_at_exec(s, k) {
                Some(e) => {
                    hit = Some(e);
                    break;
                },
                None => {},
            }
            k = k + 1;
        }
        match hit {
            Some(e) => {
                proof {
                    lemma_any_tag_at(s@, k as int);
                    lemma_first_in_found(p as int, s@.len() as int, some_pred(any_tag(s@)), k as int);
                }
                let piece = sub_chars(s, p, k);
                let ghost before = out@;
                crate::text::append_chars(&mut out, &piece);
                out.push(' ');
                proof {
                    assert(out@ =~= before + (s@.subrange(p as int, k as int) + seq![' ']));
                }
                p = e;
            },
            None => {
                proof {
                    lemma_first_in_none(p as int, s@.len() as int, some_pred(any_tag(s@)));
                }
                let rest = sub_chars(s, p, s.len());
                crate::text::append_chars(&mut out, &rest);
                return out;
            },
        }
    }
    out
}


// ---------------------------------------------------------------------------
// Listing matches.
pub open spec fn span_ints(v: Seq<(usize, usize)>) -> Seq<(int, int)> {
    v.map_values(|x: (usize, usize)| (x.0 as int, x.1 as int))
}

pub proof fn lemma_scan_bounds(p: int, hi: int, m: spec_fn(int) -> Option<int>)
    ensures
        forall|x: int| 0 <= x < scan(p, hi, m).len() ==> p <= (#[trigger] scan(p, hi, m)[x]).0 < scan(p, hi, m)[x].1 <= hi,
    decreases hi - p,
{
    if p < hi {
        lemma_first_in(p, hi, some_pred(m));
        match first_in(p, hi, some_pred(m)) {
            None => {},
            Some(k) => {
                let e = m(k)->0;
                if p <= k && k < e && e <= hi {
                    lemma_scan_bounds(e, hi, m);
                    let sc = scan(p, hi, m);
                    assert forall|x: int| 0 <= x < sc.len() implies p <= (#[trigger] sc[x]).0 < sc[x].1 <= hi by {
                        if x > 0 {
                            assert(sc[x] == scan(e, hi, m)[x - 1]);
                        }
                    }
                }
            },
        }
    }
}


// ---------------------------------------------------------------------------
// Other scraped constructs.
/// `(?is)<tr[^>]*>(.*?)</tr>`: `(gt, close)` where `gt` is the `>` of the
/// opening tag and `close` the start of `</tr>`.
pub open spec fn row_parts(s: Seq<char>, i: int) -> Option<(int, int)> {
    if 0 <= i < s.len() && s[i] == '<' && ci_matches_at(s, i + 1, "tr"@) {
        match find_char_from(s, '>', i + 3) {
            Some(k) => match ci_find_from(s, "</tr>"@, k + 1) {
                Some(e) => Some((k, e)),
                None => None,
            },
            None => None,
        }
    } else {
        None
    }
}

/// `(?is)<a([^>]*)>(.*?)</a>`: `(gt, close)`.
pub open spec fn anchor_parts(s: Seq<char>, i: int) -> Option<(int, int)> {
    if 0 <= i && i + 1 < s.len() && s[i] == '<' && crate::text::ci_char_eq(s[i + 1], 'a') {
        match find_char_from(s, '>', i + 2) {
            Some(k) => match ci_find_from(s, "</a>"@, k + 1) {
                Some(e) => Some((k, e)),
                None => None,
            },
            None => None,
        }
    } else {
        None
    }
}

pub open spec fn is_url_key_char(c: char) -> bool {
    !is_quote(c) && c != ':' && c != ',' && c != '{' && c != '}' && !is_ws(c)
}

pub open spec fn not_key_pred(b: Seq<char>) -> spec_fn(int) -> bool {
    |x: int| !is_url_key_char(b[x])
}

pub open spec fn key_run_end(b: Seq<char>, i: int) -> int {
    match first_in(i, b.len() as int, not_key_pred(b)) {
        Some(j) => j,
        None => if i <= b.len() { b.len() as int } else { i },
    }
}

/// `['"]?([^'":,{}\s]+)['"]?\s*:\s*['"]([^"']+)['"]`:
/// `(key_start, key_end, value_start, value_end)`.
pub open spec fn url_pair_parts(b: Seq<char>, i: int) -> Option<(int, int, int, int)> {
    if 0 <= i < b.len() {
        let k0 = if is_quote(b[i]) { i + 1 } else { i };
        let j = key_run_end(b, k0);
        if k0 < j {
            let j2 = if j < b.len() && is_quote(b[j]) { j + 1 } else { j };
            let c = skip_ws_from(b, j2);
            if c < b.len() && b[c] == ':' {
                let d = skip_ws_from(b, c + 1);
                if d < b.len() && is_quote(b[d]) {
                    match find_quote_from(b, d + 1) {
                        Some(q) => if q > d + 1 { Some((k0, j, d + 1, q)) } else { None },
                        None => None,
                    }
                } else {
                    None
                }
            } else {
                None
            }
        } else {
            None
        }
    } else {
        None
    }
}

pub open spec fn is_ascii_digit(c: char) -> bool {
    '0' <= c && c <= '9'
}

pub open spec fn not_digit_pred(b: Seq<char>) -> spec_fn(int) -> bool {
    |x: int| !is_ascii_digit(b[x])
}

pub open spec fn digit_run_end(b: Seq<char>, i: int) -> int {
    match first_in(i, b.len() as int, not_digit_pred(b)) {
        Some(j) => j,
        None => if i <= b.len() { b.len() as int } else { i },
    }
}

/// `value=["'](\d+)["']`: `(digits_start, digits_end)`.
pub open spec fn option_value_parts(b: Seq<char>, i: int) -> Option<(int, int)> {
    if matches_at(b, i, "value="@) && i + 6 < b.len() && is_quote(b[i + 6]) {
        let j = digit_run_end(b, i + 7);
        if j > i + 7 && j < b.len() && is_quote(b[j]) {
            Some((i + 7, j))
        } else {
            None
        }
    } else {
        None
    }
}

/// The constructs the scrapers list.
#[derive(Clone, Copy, PartialEq, Eq, Structural)]
pub enum Construct {
    NamedTag,
    Row,
    Anchor,
    UrlPair,
    OptionValue,
}

/// Where the construct of kind `c` starting at `i` ends (`name` is the tag
/// name for `NamedTag`).
pub open spec fn construct_at(s: Seq<char>, c: Construct, name: Seq<char>, i: int) -> Option<int> {
    match c {
        Construct::NamedTag => named_tag_at(s, name, i),
        Construct::Row => match row_parts(s, i) {
            Some(x) => Some(x.1 + 5),
            None => None,
        },
        Construct::Anchor => match anchor_parts(s, i) {
            Some(x) => Some(x.1 + 4),
            None => None,
        },
        Construct::UrlPair => match url_pair_parts(s, i) {
            Some(x) => Some(x.3 + 1),
            None => None,
        },
        Construct::OptionValue => match option_value_parts(s, i) {
            Some(x) => Some(x.1 + 1),
            None => None,
        },
    }
}

pub open spec fn construct(s: Seq<char>, c: Construct, name: Seq<char>) -> spec_fn(int) -> Option<int> {
    |i: int| construct_at(s, c, name, i)
}

/// All constructs of kind `c`, leftmost first, non-overlapping.
pub open spec fn constructs(s: Seq<char>, c: Construct, name: Seq<char>) -> Seq<(int, int)> {
    scan(0, s.len() as int, construct(s, c, name))
}

/// All `<NAME ...>` tags of `s`, in order, as `(start, end)` spans.
pub open spec fn named_tags(s: Seq<char>, name: Seq<char>) -> Seq<(int, int)> {
    constructs(s, Construct::NamedTag, name)
}

pub proof fn lemma_construct_at(s: Seq<char>, c: Construct, name: Seq<char>, i: int)
    ensures
        construct_at(s, c, name, i) matches Some(e) ==> 0 <= i < e <= s.len(),
        c == Construct::Row ==> (row_parts(s, i) matches Some(x) ==> i + 3 <= x.0 && x.0 + 1 <= x.1 && x.1 + 5 <= s.len()),
        c == Construct::Anchor ==> (anchor_parts(s, i) matches Some(x) ==> i + 2 <= x.0 && x.0 + 1 <= x.1 && x.1 + 4 <= s.len()),
        c == Construct::UrlPair ==> (url_pair_parts(s, i) matches Some(x) ==> i <= x.0 < x.1 < x.2 < x.3 < s.len()),
        c == Construct::OptionValue ==> (option_value_parts(s, i) matches Some(x) ==> i < x.0 < x.1 < s.len()),
{
    reveal_strlit("tr");
    reveal_strlit("</tr>");
    reveal_strlit("</a>");
    reveal_strlit("value=");
    lemma_named_tag_at(s, name, i);
    if 0 <= i < s.len() {
        lemma_first_in(i + 3, s.len() as int, crate::text::char_pred(s, '>'));
        if let Some(k) = find_char_from(s, '>', i + 3) {
            lemma_first_in(k + 1, s.len() - 5 + 1, crate::text::ci_matches_pred(s, "</tr>"@));
        }
        lemma_first_in(i + 2, s.len() as int, crate::text::char_pred(s, '>'));
        if let Some(k) = find_char_from(s, '>', i + 2) {
            lemma_first_in(k + 1, s.len() - 4 + 1, crate::text::ci_matches_pred(s, "</a>"@));
        }
        let k0 = if is_quote(s[i]) { i + 1 } else { i };
        lemma_first_in(k0, s.len() as int, not_key_pred(s));
        let j = key_run_end(s, k0);
        let j2 = if j < s.len() && is_quote(s[j]) { j + 1 } else { j };
        lemma_skip_ws_from(s, j2);
        let cc = skip_ws_from(s, j2);
        lemma_skip_ws_from(s, cc + 1);
        let d = skip_ws_from(s, cc + 1);
        lemma_first_in(d + 1, s.len() as int, crate::text::quote_pred(s));
        lemma_first_in(i + 7, s.len() as int, not_digit_pred(s));
    }
}

pub fn row_parts_exec(s: &Vec<char>, i: usize) -> (r: Option<(usize, usize)>)
    ensures
        match r {
            Some(x) => row_parts(s@, i as int) == Some((x.0 as int, x.1 as int)),
            None => row_parts(s@, i as int) is None,
        },
{
    proof {
        reveal_strlit("tr");
        lemma_first_in(i + 3, s@.len() as int, crate::text::char_pred(s@, '>'));
    }
    if i < s.len() && s[i] == '<' && ci_matches_at_exec(s, i + 1, &crate::text::chars_of("tr")) {
        match find_char_from_exec(s, '>', i + 3) {
            Some(k) => match ci_find_from_exec(s, &crate::text::chars_of("</tr>"), k + 1) {
                Some(e) => Some((k, e)),
                None => None,
            },
            None => None,
        }
    } else {
        None
    }
}

pub fn anchor_parts_exec(s: &Vec<char>, i: usize) -> (r: Option<(usize, usize)>)
    ensures
        match r {
            Some(x) => anchor_parts(s@, i as int) == Some((x.0 as int, x.1 as int)),
            None => anchor_parts(s@, i as int) is None,
        },
{
    proof {
        lemma_first_in(i + 2, s@.len() as int, crate::text::char_pred(s@, '>'));
    }
    if i < s.len() && i + 1 < s.len() && s[i] == '<' && crate::text::ci_char_eq_exec(s[i + 1], 'a') {
        match find_char_from_exec(s, '>', i + 2) {
            Some(k) => match ci_find_from_exec(s, &crate::text::chars_of("</a>"), k + 1) {
                Some(e) => Some((k, e)),
                None => None,
            },
            None => None,
        }
    } else {
        None
    }
}

fn is_url_key_char_exec(c: char) -> (r: bool)
    ensures
        r == is_url_key_char(c),
{
    !(c == '"' || c == '\'') && c != ':' && c != ',' && c != '{' && c != '}' && !crate::text::char_is_ws(c)
}

fn key_run_end_exec(b: &Vec<char>, i: usize) -> (r: usize)
    ensures
        r == key_run_end(b@, i as int),
{
    if i >= b.len() {
        proof {
            lemma_first_in_none(i as int, b@.len() as int, not_key_pred(b@));
        }
        return i;
    }
    let mut j = i;
    while j < b.len()
        invariant
            i <= j <= b@.len(),
            forall|x: int| i <= x < j ==> !(#[trigger] not_key_pred(b@)(x)),
        decreases b@.len() - j,
    {
        if !is_url_key_char_exec(b[j]) {
            proof {
                lemma_first_in_found(i as int, b@.len() as int, not_key_pred(b@), j as int);
            }
            return j;
        }
        j = j + 1;
    }
    proof {
        lemma_first_in_none(i as int, b@.len() as int, not_key_pred(b@));
    }
    j
}

fn digit_run_end_exec(b: &Vec<char>, i: usize) -> (r: usize)
    ensures
        r == digit_run_end(b@, i as int),
{
    if i >= b.len() {
        proof {
            lemma_first_in_none(i as int, b@.len() as int, not_digit_pred(b@));
        }
        return i;
    }
    let mut j = i;
    while j < b.len()
        invariant
            i <= j <= b@.len(),
            forall|x: int| i <= x < j ==> !(#[trigger] not_digit_pred(b@)(x)),
        decreases b@.len() - j,
    {
        if !('0' <= b[j] && b[j] <= '9') {
            proof {
                lemma_first_in_found(i as int, b@.len() as int, not_digit_pred(b@), j as int);
            }
            return j;
        }
        j = j + 1;
    }
    proof {
        lemma_first_in_none(i as int, b@.len() as int, not_digit_pred(b@));
    }
    j
}

pub fn url_pair_parts_exec(b: &Vec<char>, i: usize) -> (r: Option<(usize, usize, usize, usize)>)
    ensures
        match r {
            Some(x) => url_pair_parts(b@, i as int) == Some((x.0 as int, x.1 as int, x.2 as int, x.3 as int)),
            None => url_pair_parts(b@, i as int) is None,
        },
{
    if i >= b.len() {
        return None;
    }
    let k0 = if b[i] == '"' || b[i] == '\'' { i + 1 } else { i };
    let j = key_run_end_exec(b, k0);
    proof {
        lemma_first_in(k0 as int, b@.len() as int, not_key_pred(b@));
    }
    if !(k0 < j) {
        return None;
    }
    let j2 = if j < b.len() && (b[j] == '"' || b[j] == '\'') { j + 1 } else { j };
    let c = skip_ws_exec(b, j2);
    proof {
        lemma_skip_ws_from(b@, j2 as int);
    }
    if !(c < b.len() && b[c] == ':') {
        return None;
    }
    let d = skip_ws_exec(b, c + 1);
    proof {
        lemma_skip_ws_from(b@, c + 1);
    }
    if !(d < b.len() && (b[d] == '"' || b[d] == '\'')) {
        return None;
    }
    match find_quote_from_exec(b, d + 1) {
        Some(q) => if q > d + 1 {
            Some((k0, j, d + 1, q))
        } else {
            None
        },
        None => None,
    }
}

pub fn option_value_parts_exec(b: &Vec<char>, i: usize) -> (r: Option<(usize, usize)>)
    ensures
        match r {
            Some(x) => option_value_parts(b@, i as int) == Some((x.0 as int, x.1 as int)),
            None => option_value_parts(b@, i as int) is None,
        },
{
    proof {
        reveal_strlit("value=");
    }
    if !matches_at_exec(b, i, &crate::text::chars_of("value=")) {
        return None;
    }
    let len = b.len();
    assert(i + 6 <= len);
    if !(i + 6 < b.len() && (b[i + 6] == '"' || b[i + 6] == '\'')) {
        return None;
    }
    let j = digit_run_end_exec(b, i + 7);
    if j > i + 7 && j < b.len() && (b[j] == '"' || b[j] == '\'') {
        Some((i + 7, j))
    } else {
        None
    }
}

pub fn construct_at_exec(s: &Vec<char>, c: Construct, name: &Vec<char>, i: usize) -> (r: Option<usize>)
    ensures
        opt_int(r) == construct_at(s@, c, name@, i as int),
{
    let len = s.len();
    proof {
        lemma_construct_at(s@, c, name@, i as int);
    }
    match c {
        Construct::NamedTag => named_tag_at_exec(s, name, i),
        Construct::Row => match row_parts_exec(s, i) {
            Some(x) => Some(x.1 + 5),
            None => None,
        },
        Construct::Anchor => match anchor_parts_exec(s, i) {
            Some(x) => Some(x.1 + 4),
            None => None,
        },
        Construct::UrlPair => match url_pair_parts_exec(s, i) {
            Some(x) => Some(x.3 + 1),
            None => None,
        },
        Construct::OptionValue => match option_value_parts_exec(s, i) {
            Some(x) => Some(x.1 + 1),
            None => None,
        },
    }
}

fn next_construct(s: &Vec<char>, c: Construct, name: &Vec<char>, p: usize) -> (r: Option<(usize, usize)>)
    ensures
        match r {
            Some((k, e)) => p <= k < e <= s@.len() && construct_at(s@, c, name@, k as int) == Some(e as int)
                && forall|j: int| p <= j < k ==> !(#[trigger] some_pred(construct(s@, c, name@))(j)),
            None => forall|j: int| p <= j < s@.len() ==> !(#[trigger] some_pred(construct(s@, c, name@))(j)),
        },
{
    let mut k = p;
    while k < s.len()
        invariant
            p <= k,
            forall|j: int| p <= j < k ==> !(#[trigger] some_pred(construct(s@, c, name@))(j)),
        decreases s@.len() - k,
    {
        match construct_at_exec(s, c, name, k) {
            Some(e) => {
                proof {
                    lemma_construct_at(s@, c, name@, k as int);
                }
                return Some((k, e));
            },
            None => {},
        }
        k = k + 1;
    }
    None
}

/// The `(start, end)` spans of all constructs of kind `c` in `s`.
pub fn construct_spans(s: &Vec<char>, c: Construct, name: &Vec<char>) -> (r: Vec<(usize, usize)>)
    ensures
        span_ints(r@) == constructs(s@, c, name@),
        forall|x: int| 0 <= x < r@.len() ==> (#[trigger] r@[x]).0 < r@[x].1 <= s@.len(),
{
    let mut r: Vec<(usize, usize)> = Vec::new();
    let mut p: usize = 0;
    let ghost hi = s@.len() as int;
    while p < s.len()
        invariant
            hi == s@.len(),
            p <= s@.len(),
            constructs(s@, c, name@) == span_ints(r@) + scan(p as int, hi, construct(s@, c, name@)),
            forall|x: int| 0 <= x < r@.len() ==> (#[trigger] r@[x]).0 < r@[x].1 <= s@.len(),
        decreases s@.len() - p,
    {
        match next_construct(s, c, name, p) {
            None => {
                proof {
                    lemma_scan_done(p as int, hi, construct(s@, c, name@));
                    assert(span_ints(r@) + scan(p as int, hi, construct(s@, c, name@)) =~= span_ints(r@));
                }
                return r;
            },
            Some((k, e)) => {
                proof {
                    lemma_scan_step(p as int, hi, construct(s@, c, name@), k as int);
                }
                let ghost before = r@;
                r.push((k, e));
                proof {
                    assert(span_ints(r@) =~= span_ints(before).push((k as int, e as int)));
                    assert(span_ints(before) + scan(p as int, hi, construct(s@, c, name@)) =~= span_ints(r@) + scan(e as int, hi, construct(s@, c, name@)));
                }
                p = e;
            },
        }
    }
    proof {
        lemma_scan_done(p as int, hi, construct(s@, c, name@));
        assert(span_ints(r@) + scan(p as int, hi, construct(s@, c, name@)) =~= span_ints(r@));
    }
    r
}

/// The `(start, end)` spans of all `<NAME ...>` tags of `s`.
pub fn named_tag_spans(s: &Vec<char>, name: &Vec<char>) -> (r: Vec<(usize, usize)>)
    ensures
        span_ints(r@) == named_tags(s@, name@),
        forall|x: int| 0 <= x < r@.len() ==> (#[trigger] r@[x]).0 < r@[x].1 <= s@.len(),
{
    construct_spans(s, Construct::NamedTag, name)
}


/// Every listed match starts where the matcher succeeds and ends where it says.
pub proof fn lemma_scan_members(p: int, hi: int, m: spec_fn(int) -> Option<int>, x: int)
    requires
        0 <= x < scan(p, hi, m).len(),
    ensures
        m(scan(p, hi, m)[x].0) == Some(scan(p, hi, m)[x].1),
    decreases hi - p,
{
    if p < hi {
        lemma_first_in(p, hi, some_pred(m));
        match first_in(p, hi, some_pred(m)) {
            None => {},
            Some(k) => {
                let e = m(k)->0;
                if p <= k && k < e && e <= hi {
                    if x > 0 {
                        lemma_scan_members(e, hi, m, x - 1);
                        assert(scan(p, hi, m)[x] == scan(e, hi, m)[x - 1]);
                    }
                }
            },
        }
    }
}

} // verus!
