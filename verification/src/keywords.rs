//! Keyword lists (`date_keyword`, `area_keyword`) and keyword matching.

use vstd::prelude::*;
use crate::text::{chars_of, string_views, strings_of, vec_views, contains, contains_exec, is_blank, string_of, trim, trim_exec, is_ws, join, nonws_pred, lemma_trim_bounds, lemma_join_push, lemma_first_in_found, lemma_last_in_found};

verus! {

/// The separators accepted between keywords: `|`, `,`, newline, `;` and the
/// full-width comma and semicolon.
pub open spec fn is_keyword_separator(c: char) -> bool {
    c == '|' || c == ',' || c == '\n' || c == ';' || c == '\u{FF0C}' || c == '\u{FF1B}'
}

/// `str::split` on the separators: the pieces between separators, in order
/// (a string without separators is one piece; empty pieces are kept).
pub open spec fn split_pieces(s: Seq<char>) -> Seq<Seq<char>>
    decreases s.len(),
{
    if s.len() == 0 {
        seq![seq![]]
    } else {
        let w = split_pieces(s.drop_last());
        let c = s.last();
        if is_keyword_separator(c) {
            w.push(seq![])
        } else {
            w.update(w.len() - 1, w.last().push(c))
        }
    }
}

/// The trimmed, non-empty pieces, in order.
pub open spec fn nonblank_trimmed(pieces: Seq<Seq<char>>) -> Seq<Seq<char>>
    decreases pieces.len(),
{
    if pieces.len() == 0 {
        seq![]
    } else {
        let rest = nonblank_trimmed(pieces.drop_last());
        let t = trim(pieces.last());
        if t.len() > 0 {
            rest.push(t)
        } else {
            rest
        }
    }
}

/// What `split_keywords` returns.
pub open spec fn keywords_of(raw: Seq<char>) -> Seq<Seq<char>> {
    if trim(raw).len() == 0 {
        seq![]
    } else {
        nonblank_trimmed(split_pieces(raw))
    }
}

/// What `matches_keyword` returns: some keyword of the list occurs in `text`.
pub open spec fn keyword_matches(text: Seq<char>, keyword: Seq<char>) -> bool {
    exists|i: int| 0 <= i < keywords_of(keyword).len() && contains(text, #[trigger] keywords_of(keyword)[i])
}

pub proof fn lemma_split_pieces_nonempty(s: Seq<char>)
    ensures
        split_pieces(s).len() > 0,
    decreases s.len(),
{
    if s.len() > 0 {
        lemma_split_pieces_nonempty(s.drop_last());
    }
}

fn is_keyword_separator_exec(c: char) -> (r: bool)
    ensures
        r == is_keyword_separator(c),
{
    c == '|' || c == ',' || c == '\n' || c == ';' || c == '\u{FF0C}' || c == '\u{FF1B}'
}

fn keywords_of_chars(raw: &Vec<char>) -> (r: Vec<Vec<char>>)
    ensures
        vec_views(r@) == keywords_of(raw@),
{
    if is_blank(raw) {
        let r: Vec<Vec<char>> = Vec::new();
        assert(vec_views(r@) =~= Seq::<Seq<char>>::empty());
        return r;
    }
    let mut out: Vec<Vec<char>> = Vec::new();
    let mut cur: Vec<char> = Vec::new();
    let ghost mut done: Seq<Seq<char>> = seq![];
    let mut i: usize = 0;
    while i < raw.len()
        invariant
            i <= raw@.len(),
            split_pieces(raw@.take(i as int)) == done.push(cur@),
            vec_views(out@) == nonblank_trimmed(done),
        decreases raw@.len() - i,
    {
        let c = raw[i];
        proof {
            assert(raw@.take(i + 1).drop_last() =~= raw@.take(i as int));
            assert(raw@.take(i + 1).last() == c);
        }
        if is_keyword_separator_exec(c) {
            let t = trim_exec(&cur);
            proof {
                assert(done.push(cur@).drop_last() =~= done);
            }
            if t.len() > 0 {
                out.push(t);
            }
            proof {
                assert(vec_views(out@) =~= nonblank_trimmed(done.push(cur@)));
                done = done.push(cur@);
            }
            cur = Vec::new();
            proof {
                assert(split_pieces(raw@.take(i + 1)) =~= done.push(cur@));
            }
        } else {
            cur.push(c);
            proof {
                assert(split_pieces(raw@.take(i + 1)) =~= done.push(cur@));
            }
        }
        i = i + 1;
    }
    let t = trim_exec(&cur);
    proof {
        assert(raw@.take(raw@.len() as int) =~= raw@);
        assert(done.push(cur@).drop_last() =~= done);
    }
    if t.len() > 0 {
        out.push(t);
    }
    assert(vec_views(out@) =~= nonblank_trimmed(done.push(cur@)));
    out
}

/// Splits a keyword setting on `|`, `,`, `;`, newline and the full-width
/// comma and semicolon; returns the trimmed, non-empty parts in order.
pub fn split_keywords(raw: &str) -> (r: Vec<String>)
    ensures
        string_views(r@) == keywords_of(raw@),
{
    let chars = chars_of(raw);
    let parts = keywords_of_chars(&chars);
    strings_of(&parts)
}

pub fn keyword_matches_chars(text: &Vec<char>, keyword: &Vec<char>) -> (r: bool)
    ensures
        r == keyword_matches(text@, keyword@),
{
    let parts = keywords_of_chars(keyword);
    let ghost ks = keywords_of(keyword@);
    let mut i: usize = 0;
    while i < parts.len()
        invariant
            i <= parts@.len(),
            vec_views(parts@) == ks,
            ks == keywords_of(keyword@),
            forall|j: int| 0 <= j < i ==> !contains(text@, #[trigger] ks[j]),
        decreases parts@.len() - i,
    {
        if contains_exec(text, &parts[i]) {
            assert(ks[i as int] == parts@[i as int]@);
            return true;
        }
        assert(ks[i as int] == parts@[i as int]@);
        i = i + 1;
    }
    false
}

/// Whether some keyword of `keyword` (split as by `split_keywords`) occurs in
/// `text`; an empty keyword list matches nothing.
pub fn matches_keyword(text: &str, keyword: &str) -> (r: bool)
    ensures
        r == keyword_matches(text@, keyword@),
{
    let t = chars_of(text);
    let k = chars_of(keyword);
    keyword_matches_chars(&t, &k)
}


pub open spec fn no_separator(s: Seq<char>) -> bool {
    forall|j: int| 0 <= j < s.len() ==> !is_keyword_separator(#[trigger] s[j])
}

proof fn lemma_split_pieces_clean(s: Seq<char>)
    ensures
        forall|i: int| 0 <= i < split_pieces(s).len() ==> no_separator(#[trigger] split_pieces(s)[i]),
    decreases s.len(),
{
    if s.len() > 0 {
        let t = s.drop_last();
        lemma_split_pieces_clean(t);
        lemma_split_pieces_nonempty(t);
        let w = split_pieces(t);
        let c = s.last();
        if !is_keyword_separator(c) {
            let u = w.update(w.len() - 1, w.last().push(c));
            assert forall|i: int| 0 <= i < u.len() implies no_separator(#[trigger] u[i]) by {
                if i == w.len() - 1 {
                    assert(no_separator(w[i]));
                    assert forall|j: int| 0 <= j < u[i].len() implies !is_keyword_separator(#[trigger] u[i][j]) by {
                        if j < w[i].len() {
                            assert(u[i][j] == w[i][j]);
                        }
                    }
                } else {
                    assert(u[i] == w[i]);
                }
            }
        } else {
            let u = w.push(seq![]);
            assert forall|i: int| 0 <= i < u.len() implies no_separator(#[trigger] u[i]) by {
                if i < w.len() {
                    assert(u[i] == w[i]);
                }
            }
        }
    }
}

proof fn lemma_nonblank_trimmed_clean(pieces: Seq<Seq<char>>)
    requires
        forall|i: int| 0 <= i < pieces.len() ==> no_separator(#[trigger] pieces[i]),
    ensures
        forall|i: int| 0 <= i < nonblank_trimmed(pieces).len() ==> {
            &&& (#[trigger] nonblank_trimmed(pieces)[i]).len() > 0
            &&& no_separator(nonblank_trimmed(pieces)[i])
        },
    decreases pieces.len(),
{
    if pieces.len() > 0 {
        let rest = pieces.drop_last();
        assert forall|i: int| 0 <= i < rest.len() implies no_separator(#[trigger] rest[i]) by {
            assert(rest[i] == pieces[i]);
        }
        lemma_nonblank_trimmed_clean(rest);
        let x = pieces.last();
        assert(no_separator(pieces[pieces.len() - 1]));
        crate::text::lemma_trim_bounds(x);
        let t = trim(x);
        let r = nonblank_trimmed(rest);
        if t.len() > 0 {
            assert forall|j: int| 0 <= j < t.len() implies !is_keyword_separator(#[trigger] t[j]) by {
                assert(t[j] == x[crate::text::trim_lo(x) + j]);
            }
            assert(nonblank_trimmed(pieces) == r.push(t));
            assert forall|i: int| 0 <= i < r.push(t).len() implies {
                &&& (#[trigger] r.push(t)[i]).len() > 0
                &&& no_separator(r.push(t)[i])
            } by {
                if i < r.len() {
                    assert(r.push(t)[i] == r[i]);
                }
            }
        } else {
            assert(nonblank_trimmed(pieces) == r);
        }
    }
}

/// Every keyword of a keyword setting is non-empty and holds no separator.
pub proof fn lemma_keywords_are_clean(raw: Seq<char>)
    ensures
        forall|i: int| 0 <= i < keywords_of(raw).len() ==> {
            &&& (#[trigger] keywords_of(raw)[i]).len() > 0
            &&& no_separator(keywords_of(raw)[i])
        },
{
    lemma_split_pieces_clean(raw);
    lemma_nonblank_trimmed_clean(split_pieces(raw));
}


// ---------------------------------------------------------------------------
// Splitting and joining.
/// Splitting at a separator splits each side on its own.
proof fn lemma_split_concat(a: Seq<char>, c: char, b: Seq<char>)
    requires
        is_keyword_separator(c),
    ensures
        split_pieces(a + seq![c] + b) == split_pieces(a) + split_pieces(b),
    decreases b.len(),
{
    if b.len() == 0 {
        assert(a + seq![c] + b =~= a.push(c));
        assert(a.push(c).drop_last() =~= a);
        assert(split_pieces(a) + split_pieces(b) =~= split_pieces(a).push(seq![]));
    } else {
        let b0 = b.drop_last();
        let d = b.last();
        lemma_split_concat(a, c, b0);
        let s = a + seq![c] + b;
        assert(s.drop_last() =~= a + seq![c] + b0);
        assert(s.last() == d);
        let x = split_pieces(a);
        let y = split_pieces(b0);
        lemma_split_pieces_nonempty(b0);
        if is_keyword_separator(d) {
            assert((x + y).push(seq![]) =~= x + y.push(seq![]));
        } else {
            let w = x + y;
            assert(w.update(w.len() - 1, w.last().push(d)) =~= x + y.update(y.len() - 1, y.last().push(d)));
        }
    }
}

/// A string without separators is a single piece.
proof fn lemma_split_clean(s: Seq<char>)
    requires
        no_separator(s),
    ensures
        split_pieces(s) == seq![s],
    decreases s.len(),
{
    if s.len() > 0 {
        let t = s.drop_last();
        assert(no_separator(t)) by {
            assert forall|j: int| 0 <= j < t.len() implies !is_keyword_separator(#[trigger] t[j]) by {
                assert(t[j] == s[j]);
            }
        }
        lemma_split_clean(t);
        assert(!is_keyword_separator(s[s.len() - 1]));
        assert(t.push(s.last()) =~= s);
        assert(seq![t].update(0, t.push(s.last())) =~= seq![s]);
    } else {
        assert(s =~= Seq::<char>::empty());
    }
}

proof fn lemma_nonblank_trimmed_concat(x: Seq<Seq<char>>, y: Seq<Seq<char>>)
    ensures
        nonblank_trimmed(x + y) == nonblank_trimmed(x) + nonblank_trimmed(y),
    decreases y.len(),
{
    if y.len() == 0 {
        assert(x + y =~= x);
        assert(nonblank_trimmed(x) + nonblank_trimmed(y) =~= nonblank_trimmed(x));
    } else {
        let y0 = y.drop_last();
        lemma_nonblank_trimmed_concat(x, y0);
        assert((x + y).drop_last() =~= x + y0);
        assert((x + y).last() == y.last());
        let t = trim(y.last());
        if t.len() > 0 {
            assert((nonblank_trimmed(x) + nonblank_trimmed(y0)).push(t) =~= nonblank_trimmed(x) + nonblank_trimmed(y0).push(t));
        }
    }
}

/// A whitespace-only string splits into whitespace-only pieces.
proof fn lemma_split_pieces_blank(s: Seq<char>)
    requires
        forall|j: int| 0 <= j < s.len() ==> is_ws(#[trigger] s[j]),
    ensures
        forall|i: int, j: int| 0 <= i < split_pieces(s).len() && 0 <= j < split_pieces(s)[i].len() ==> is_ws(#[trigger] split_pieces(s)[i][j]),
    decreases s.len(),
{
    if s.len() > 0 {
        let t = s.drop_last();
        assert forall|j: int| 0 <= j < t.len() implies is_ws(#[trigger] t[j]) by {
            assert(t[j] == s[j]);
        }
        lemma_split_pieces_blank(t);
        lemma_split_pieces_nonempty(t);
        let w = split_pieces(t);
        let c = s.last();
        assert(is_ws(s[s.len() - 1]));
        if !is_keyword_separator(c) {
            let u = w.update(w.len() - 1, w.last().push(c));
            assert(split_pieces(s) == u);
            assert forall|i: int, j: int| 0 <= i < u.len() && 0 <= j < u[i].len() implies is_ws(#[trigger] u[i][j]) by {
                if i == w.len() - 1 {
                    if j < w[i].len() {
                        assert(u[i][j] == w[i][j]);
                    }
                } else {
                    assert(u[i] == w[i]);
                }
            }
        } else {
            let u = w.push(seq![]);
            assert(split_pieces(s) == u);
            assert forall|i: int, j: int| 0 <= i < u.len() && 0 <= j < u[i].len() implies is_ws(#[trigger] u[i][j]) by {
                assert(u[i] == w[i]);
            }
        }
    }
}

proof fn lemma_nonblank_trimmed_blank(pieces: Seq<Seq<char>>)
    requires
        forall|i: int, j: int| 0 <= i < pieces.len() && 0 <= j < pieces[i].len() ==> is_ws(#[trigger] pieces[i][j]),
    ensures
        nonblank_trimmed(pieces).len() == 0,
    decreases pieces.len(),
{
    if pieces.len() > 0 {
        let rest = pieces.drop_last();
        assert forall|i: int, j: int| 0 <= i < rest.len() && 0 <= j < rest[i].len() implies is_ws(#[trigger] rest[i][j]) by {
            assert(rest[i] == pieces[i]);
        }
        lemma_nonblank_trimmed_blank(rest);
        let x = pieces.last();
        assert forall|j: int| 0 <= j < x.len() implies is_ws(#[trigger] x[j]) by {
            assert(x[j] == pieces[pieces.len() - 1][j]);
        }
        lemma_trim_bounds(x);
    }
}

/// The blank check of `split_keywords` changes nothing: a blank setting has
/// no non-blank piece anyway.
proof fn lemma_keywords_of_pieces(raw: Seq<char>)
    ensures
        keywords_of(raw) == nonblank_trimmed(split_pieces(raw)),
{
    lemma_trim_bounds(raw);
    if trim(raw).len() == 0 {
        lemma_split_pieces_blank(raw);
        lemma_nonblank_trimmed_blank(split_pieces(raw));
    }
}

/// A trimmed string trims to itself.
proof fn lemma_trim_trimmed(s: Seq<char>)
    ensures
        trim(trim(s)) == trim(s),
{
    lemma_trim_bounds(s);
    let t = trim(s);
    lemma_trim_bounds(t);
    if t.len() > 0 {
        lemma_first_in_found(0, t.len() as int, nonws_pred(t), 0);
        lemma_last_in_found(0, t.len() as int, nonws_pred(t), t.len() - 1);
        assert(t.subrange(0, t.len() as int) =~= t);
    }
}

proof fn lemma_nonblank_trimmed_trimmed(pieces: Seq<Seq<char>>)
    ensures
        forall|i: int| 0 <= i < nonblank_trimmed(pieces).len() ==> trim(#[trigger] nonblank_trimmed(pieces)[i]) == nonblank_trimmed(pieces)[i],
    decreases pieces.len(),
{
    if pieces.len() > 0 {
        let rest = pieces.drop_last();
        lemma_nonblank_trimmed_trimmed(rest);
        lemma_trim_trimmed(pieces.last());
        let r = nonblank_trimmed(rest);
        let t = trim(pieces.last());
        if t.len() > 0 {
            assert forall|i: int| 0 <= i < r.push(t).len() implies trim(#[trigger] r.push(t)[i]) == r.push(t)[i] by {
                if i < r.len() {
                    assert(r.push(t)[i] == r[i]);
                }
            }
        }
    }
}

/// The keywords of two settings joined by a separator are the keywords of
/// the first followed by those of the second.
pub proof fn lemma_keywords_of_joined(a: Seq<char>, c: char, b: Seq<char>)
    requires
        is_keyword_separator(c),
    ensures
        keywords_of(a + seq![c] + b) == keywords_of(a) + keywords_of(b),
{
    lemma_split_concat(a, c, b);
    lemma_nonblank_trimmed_concat(split_pieces(a), split_pieces(b));
    lemma_keywords_of_pieces(a + seq![c] + b);
    lemma_keywords_of_pieces(a);
    lemma_keywords_of_pieces(b);
}

/// Non-empty, trimmed keywords without separators, joined by a separator,
/// split back into the same keywords.
proof fn lemma_clean_join_splits_back(ws: Seq<Seq<char>>, c: char)
    requires
        is_keyword_separator(c),
        forall|i: int| 0 <= i < ws.len() ==> {
            &&& (#[trigger] ws[i]).len() > 0
            &&& no_separator(ws[i])
            &&& trim(ws[i]) == ws[i]
        },
    ensures
        keywords_of(join(ws, seq![c])) == ws,
    decreases ws.len(),
{
    if ws.len() == 0 {
        lemma_keywords_of_pieces(seq![]);
        assert(split_pieces(seq![]) =~= seq![Seq::<char>::empty()]);
        lemma_trim_bounds(Seq::<char>::empty());
        assert(nonblank_trimmed(seq![Seq::<char>::empty()]) =~= Seq::<Seq<char>>::empty());
    } else {
        let w0 = ws.drop_last();
        let x = ws.last();
        assert(ws[ws.len() - 1] == x);
        lemma_split_clean(x);
        lemma_keywords_of_pieces(x);
        assert(nonblank_trimmed(seq![x]) == nonblank_trimmed(seq![x].drop_last()).push(trim(x)));
        assert(seq![x].drop_last() =~= Seq::<Seq<char>>::empty());
        assert(keywords_of(x) =~= seq![x]);
        assert(ws =~= w0.push(x));
        lemma_join_push(w0, x, seq![c]);
        if w0.len() == 0 {
            assert(ws =~= seq![x]);
        } else {
            assert forall|i: int| 0 <= i < w0.len() implies {
                &&& (#[trigger] w0[i]).len() > 0
                &&& no_separator(w0[i])
                &&& trim(w0[i]) == w0[i]
            } by {
                assert(w0[i] == ws[i]);
            }
            lemma_clean_join_splits_back(w0, c);
            lemma_keywords_of_joined(join(w0, seq![c]), c, x);
            assert(w0 + seq![x] =~= ws);
        }
    }
}

/// Joining the keywords of a setting with a separator and splitting again
/// gives the same keywords.
pub proof fn lemma_split_join_round_trip(raw: Seq<char>, c: char)
    requires
        is_keyword_separator(c),
    ensures
        keywords_of(join(keywords_of(raw), seq![c])) == keywords_of(raw),
{
    let ks = keywords_of(raw);
    lemma_keywords_are_clean(raw);
    lemma_keywords_of_pieces(raw);
    lemma_nonblank_trimmed_trimmed(split_pieces(raw));
    assert forall|i: int| 0 <= i < ks.len() implies {
        &&& (#[trigger] ks[i]).len() > 0
        &&& no_separator(ks[i])
        &&& trim(ks[i]) == ks[i]
    } by {}
    lemma_clean_join_splits_back(ks, c);
}

/// Adding alternatives to a keyword setting, before or after it, never loses
/// a match.
pub proof fn lemma_more_alternatives_keep_match(text: Seq<char>, k1: Seq<char>, c: char, k2: Seq<char>)
    requires
        keyword_matches(text, k1),
        is_keyword_separator(c),
    ensures
        keyword_matches(text, k1 + seq![c] + k2),
        keyword_matches(text, k2 + seq![c] + k1),
{
    let i = choose|i: int| 0 <= i < keywords_of(k1).len() && contains(text, #[trigger] keywords_of(k1)[i]);
    lemma_keywords_of_joined(k1, c, k2);
    lemma_keywords_of_joined(k2, c, k1);
    let front = keywords_of(k1 + seq![c] + k2);
    let back = keywords_of(k2 + seq![c] + k1);
    assert(front[i] == keywords_of(k1)[i]);
    assert(back[keywords_of(k2).len() + i] == keywords_of(k1)[i]);
}


/// A non-blank setting without separators is one keyword, trimmed.
proof fn lemma_single_keyword(a: Seq<char>)
    requires
        no_separator(a),
        trim(a).len() > 0,
    ensures
        keywords_of(a) == seq![trim(a)],
{
    lemma_split_clean(a);
    assert(seq![a].drop_last() =~= Seq::<Seq<char>>::empty());
    assert(nonblank_trimmed(seq![a]) == nonblank_trimmed(seq![a].drop_last()).push(trim(a)));
    assert(nonblank_trimmed(seq![a]) =~= seq![trim(a)]);
}

/// Each of `|`, `,`, `;`, newline, the full-width comma `，` and the
/// full-width semicolon `；` splits a setting: two non-blank parts without
/// separators around any one of them give the two parts, trimmed.
pub proof fn lemma_each_separator_splits(a: Seq<char>, b: Seq<char>)
    requires
        no_separator(a),
        no_separator(b),
        trim(a).len() > 0,
        trim(b).len() > 0,
    ensures
        keywords_of(a + seq!['|'] + b) == seq![trim(a), trim(b)],
        keywords_of(a + seq![','] + b) == seq![trim(a), trim(b)],
        keywords_of(a + seq![';'] + b) == seq![trim(a), trim(b)],
        keywords_of(a + seq!['\n'] + b) == seq![trim(a), trim(b)],
        keywords_of(a + seq!['\u{FF0C}'] + b) == seq![trim(a), trim(b)],
        keywords_of(a + seq!['\u{FF1B}'] + b) == seq![trim(a), trim(b)],
{
    lemma_single_keyword(a);
    lemma_single_keyword(b);
    assert(seq![trim(a)] + seq![trim(b)] =~= seq![trim(a), trim(b)]);
    lemma_keywords_of_joined(a, '|', b);
    lemma_keywords_of_joined(a, ',', b);
    lemma_keywords_of_joined(a, ';', b);
    lemma_keywords_of_joined(a, '\n', b);
    lemma_keywords_of_joined(a, '\u{FF0C}', b);
    lemma_keywords_of_joined(a, '\u{FF1B}', b);
}

/// A text matches a setting that lists a date after `;` (or any other
/// separator) when it contains that date.
pub proof fn lemma_listed_keyword_matches(text: Seq<char>, a: Seq<char>, b: Seq<char>)
    requires
        no_separator(a),
        no_separator(b),
        trim(a).len() > 0,
        trim(b).len() > 0,
        contains(text, trim(b)),
    ensures
        keyword_matches(text, a + seq![';'] + b),
        keyword_matches(text, a + seq!['|'] + b),
        keyword_matches(text, a + seq![','] + b),
{
    lemma_each_separator_splits(a, b);
    assert(keywords_of(a + seq![';'] + b)[1] == trim(b));
    assert(keywords_of(a + seq!['|'] + b)[1] == trim(b));
    assert(keywords_of(a + seq![','] + b)[1] == trim(b));
}

} // verus!
