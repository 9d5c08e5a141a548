//! Form fields: a map from field name to value.

use vstd::prelude::*;
use crate::text::{chars_of, seq_eq_exec};

verus! {

/// The map that a list of `(name, value)` insertions leaves: a later entry
/// with the same name replaces an earlier one.
pub open spec fn pairs_map(s: Seq<(String, String)>) -> Map<Seq<char>, Seq<char>>
    decreases s.len(),
{
    if s.len() == 0 {
        Map::empty()
    } else {
        pairs_map(s.drop_last()).insert(s.last().0@, s.last().1@)
    }
}

/// Named form fields, as a map from name to value.
#[derive(Clone, Debug)]
pub struct FormFields {
    entries: Vec<(String, String)>,
}

impl View for FormFields {
    type V = Map<Seq<char>, Seq<char>>;

    closed spec fn view(&self) -> Map<Seq<char>, Seq<char>> {
        pairs_map(self.entries@)
    }
}

proof fn lemma_pairs_map_last(s: Seq<(String, String)>, k: Seq<char>, i: int)
    requires
        0 <= i < s.len(),
        s[i].0@ == k,
        forall|j: int| i < j < s.len() ==> (#[trigger] s[j]).0@ != k,
    ensures
        pairs_map(s).contains_key(k),
        pairs_map(s)[k] == s[i].1@,
    decreases s.len(),
{
    if i < s.len() - 1 {
        lemma_pairs_map_last(s.drop_last(), k, i);
    }
}

proof fn lemma_pairs_map_absent(s: Seq<(String, String)>, k: Seq<char>)
    requires
        forall|j: int| 0 <= j < s.len() ==> (#[trigger] s[j]).0@ != k,
    ensures
        !pairs_map(s).contains_key(k),
    decreases s.len(),
{
    if s.len() > 0 {
        lemma_pairs_map_absent(s.drop_last(), k);
    }
}

impl FormFields {
    pub fn new() -> (r: Self)
        ensures
            r@ == Map::<Seq<char>, Seq<char>>::empty(),
    {
        FormFields { entries: Vec::new() }
    }

    /// Sets `name` to `value`, replacing an earlier value.
    pub fn insert(&mut self, name: String, value: String)
        ensures
            final(self)@ == old(self)@.insert(name@, value@),
    {
        let ghost before = self.entries@;
        self.entries.push((name, value));
        proof {
            assert(self.entries@.drop_last() =~= before);
        }
    }

    fn position(&self, name: &Vec<char>) -> (r: Option<usize>)
        ensures
            match r {
                Some(i) => i < self.entries@.len() && self.entries@[i as int].0@ == name@
                    && forall|j: int| i < j < self.entries@.len() ==> (#[trigger] self.entries@[j]).0@ != name@,
                None => forall|j: int| 0 <= j < self.entries@.len() ==> (#[trigger] self.entries@[j]).0@ != name@,
            },
    {
        let mut i = self.entries.len();
        while i > 0
            invariant
                i <= self.entries@.len(),
                forall|j: int| i <= j < self.entries@.len() ==> (#[trigger] self.entries@[j]).0@ != name@,
            decreases i,
        {
            let key = chars_of(self.entries[i - 1].0.as_str());
            if seq_eq_exec(&key, name) {
                return Some(i - 1);
            }
            i = i - 1;
        }
        None
    }

    /// The value of `name`, if set.
    pub fn get(&self, name: &str) -> (r: Option<&String>)
        ensures
            match r {
                Some(v) => self@.contains_key(name@) && self@[name@] == v@,
                None => !self@.contains_key(name@),
            },
    {
        let key = chars_of(name);
        match self.position(&key) {
            Some(i) => {
                proof {
                    lemma_pairs_map_last(self.entries@, name@, i as int);
                }
                Some(&self.entries[i].1)
            },
            None => {
                proof {
                    lemma_pairs_map_absent(self.entries@, name@);
                }
                None
            },
        }
    }

    pub fn contains_key(&self, name: &str) -> (r: bool)
        ensures
            r == self@.contains_key(name@),
    {
        self.get(name).is_some()
    }
}


// ---------------------------------------------------------------------------
// The form body: every field once, ordered by name.
/// Lexicographic order of character sequences. Characters compare by code
/// point, so this is also the byte order of their UTF-8 encodings, the order
/// of `String`.
pub open spec fn seq_lt(a: Seq<char>, b: Seq<char>) -> bool
    decreases a.len(),
{
    if a.len() == 0 {
        b.len() > 0
    } else if b.len() == 0 {
        false
    } else if a[0] < b[0] {
        true
    } else if a[0] == b[0] {
        seq_lt(a.drop_first(), b.drop_first())
    } else {
        false
    }
}

pub proof fn lemma_seq_lt_irreflexive(a: Seq<char>)
    ensures
        !seq_lt(a, a),
    decreases a.len(),
{
    if a.len() > 0 {
        lemma_seq_lt_irreflexive(a.drop_first());
    }
}

pub proof fn lemma_seq_lt_transitive(a: Seq<char>, b: Seq<char>, c: Seq<char>)
    requires
        seq_lt(a, b),
        seq_lt(b, c),
    ensures
        seq_lt(a, c),
    decreases a.len(),
{
    if a.len() > 0 && b.len() > 0 && c.len() > 0 && a[0] == b[0] && b[0] == c[0] {
        lemma_seq_lt_transitive(a.drop_first(), b.drop_first(), c.drop_first());
    }
}

pub proof fn lemma_seq_lt_total(a: Seq<char>, b: Seq<char>)
    ensures
        a == b || seq_lt(a, b) || seq_lt(b, a),
    decreases a.len(),
{
    if a.len() > 0 && b.len() > 0 && a[0] == b[0] {
        lemma_seq_lt_total(a.drop_first(), b.drop_first());
        if a.drop_first() == b.drop_first() {
            assert(a =~= seq![a[0]] + a.drop_first());
            assert(b =~= seq![b[0]] + b.drop_first());
        }
    } else if a.len() == 0 && b.len() == 0 {
        assert(a =~= b);
    }
}

pub proof fn lemma_seq_lt_asymmetric(a: Seq<char>, b: Seq<char>)
    requires
        seq_lt(a, b),
    ensures
        !seq_lt(b, a),
{
    if seq_lt(b, a) {
        lemma_seq_lt_transitive(a, b, a);
        lemma_seq_lt_irreflexive(a);
    }
}

fn seq_lt_exec(a: &Vec<char>, b: &Vec<char>) -> (r: bool)
    ensures
        r == seq_lt(a@, b@),
{
    let mut i: usize = 0;
    proof {
        assert(a@.subrange(0, a@.len() as int) =~= a@);
        assert(b@.subrange(0, b@.len() as int) =~= b@);
    }
    while i < a.len() && i < b.len() && a[i] == b[i]
        invariant
            i <= a@.len(),
            i <= b@.len(),
            seq_lt(a@, b@) == seq_lt(a@.subrange(i as int, a@.len() as int), b@.subrange(i as int, b@.len() as int)),
        decreases a@.len() - i,
    {
        assert(a@.subrange(i as int, a@.len() as int).drop_first() =~= a@.subrange(i + 1, a@.len() as int));
        assert(b@.subrange(i as int, b@.len() as int).drop_first() =~= b@.subrange(i + 1, b@.len() as int));
        i = i + 1;
    }
    if i == a.len() {
        i < b.len()
    } else if i == b.len() {
        false
    } else {
        assert(a@.subrange(i as int, a@.len() as int)[0] == a@[i as int]);
        assert(b@.subrange(i as int, b@.len() as int)[0] == b@[i as int]);
        a[i] < b[i]
    }
}

pub open spec fn pair_keys_increasing(s: Seq<(String, String)>) -> bool {
    forall|i: int, j: int| 0 <= i < j < s.len() ==> seq_lt(#[trigger] s[i].0@, #[trigger] s[j].0@)
}

/// Whether a list of `(name, value)` pairs is a map's contents ordered by
/// name: names strictly increase, and the pairs are exactly the map's.
pub open spec fn is_sorted_body(s: Seq<(String, String)>, m: Map<Seq<char>, Seq<char>>) -> bool {
    &&& pair_keys_increasing(s)
    &&& forall|i: int| 0 <= i < s.len() ==> m.contains_key(#[trigger] s[i].0@) && m[s[i].0@] == s[i].1@
    &&& forall|k: Seq<char>| #[trigger] m.contains_key(k) ==> exists|i: int| 0 <= i < s.len() && s[i].0@ == k
}

proof fn lemma_pairs_map_dom(s: Seq<(String, String)>, k: Seq<char>)
    requires
        pairs_map(s).contains_key(k),
    ensures
        exists|j: int| 0 <= j < s.len() && (#[trigger] s[j]).0@ == k,
    decreases s.len(),
{
    if s.last().0@ != k {
        lemma_pairs_map_dom(s.drop_last(), k);
        let j = choose|j: int| 0 <= j < s.len() - 1 && (#[trigger] s.drop_last()[j]).0@ == k;
        assert(s[j] == s.drop_last()[j]);
    } else {
        assert(s[s.len() - 1] == s.last());
    }
}

/// The pairs of a sorted body determine the map: two sorted bodies of one
/// map are the same list.
pub proof fn lemma_sorted_body_unique(a: Seq<(String, String)>, b: Seq<(String, String)>, m: Map<Seq<char>, Seq<char>>)
    requires
        is_sorted_body(a, m),
        is_sorted_body(b, m),
    ensures
        a.len() == b.len(),
        forall|i: int| 0 <= i < a.len() ==> a[i].0@ == b[i].0@ && a[i].1@ == b[i].1@,
    decreases a.len() + b.len(),
{
    // The i-th name of a sorted body is the i-th smallest name of the map;
    // compare the two lists position by position.
    assert forall|i: int| 0 <= i < a.len() && i < b.len() implies a[i].0@ == b[i].0@ by {
        lemma_sorted_position(a, b, m, i);
    }
    if a.len() < b.len() {
        let k = b[a.len() as int].0@;
        assert(m.contains_key(k));
        let j = choose|j: int| 0 <= j < a.len() && a[j].0@ == k;
        assert(a[j].0@ == b[j].0@);
        assert(seq_lt(b[j].0@, b[a.len() as int].0@));
        lemma_seq_lt_irreflexive(k);
    } else if b.len() < a.len() {
        let k = a[b.len() as int].0@;
        assert(m.contains_key(k));
        let j = choose|j: int| 0 <= j < b.len() && b[j].0@ == k;
        assert(a[j].0@ == b[j].0@);
        assert(seq_lt(a[j].0@, a[b.len() as int].0@));
        lemma_seq_lt_irreflexive(k);
    }
}

proof fn lemma_sorted_position(a: Seq<(String, String)>, b: Seq<(String, String)>, m: Map<Seq<char>, Seq<char>>, i: int)
    requires
        is_sorted_body(a, m),
        is_sorted_body(b, m),
        0 <= i < a.len(),
        i < b.len(),
    ensures
        forall|q: int| 0 <= q <= i ==> (#[trigger] a[q]).0@ == b[q].0@,
    decreases i,
{
    if i > 0 {
        lemma_sorted_position(a, b, m, i - 1);
    }
    let x = a[i].0@;
    let y = b[i].0@;
    if x != y {
        lemma_seq_lt_total(x, y);
        if seq_lt(x, y) {
            // x occurs in b at some position p; p < i would repeat a name of
            // a, p > i would put x after y > x.
            assert(m.contains_key(x));
            let p = choose|p: int| 0 <= p < b.len() && b[p].0@ == x;
            if p < i {
                assert(a[p].0@ == b[p].0@);
                assert(seq_lt(a[p].0@, a[i].0@));
                lemma_seq_lt_irreflexive(x);
            } else if p > i {
                assert(seq_lt(b[i].0@, b[p].0@));
                lemma_seq_lt_asymmetric(x, y);
            }
        } else {
            assert(m.contains_key(y));
            let p = choose|p: int| 0 <= p < a.len() && a[p].0@ == y;
            if p < i {
                assert(a[p].0@ == b[p].0@);
                assert(seq_lt(b[p].0@, b[i].0@));
                lemma_seq_lt_irreflexive(y);
            } else if p > i {
                assert(seq_lt(a[i].0@, a[p].0@));
                lemma_seq_lt_asymmetric(y, x);
            }
        }
    }
}

impl FormFields {
    /// The fields as a form body: each name once with its value, ordered by
    /// name.
    pub fn sorted_pairs(&self) -> (r: Vec<(String, String)>)
        ensures
            is_sorted_body(r@, self@),
    {
        let n = self.entries.len();
        let ghost es = self.entries@;
        let ghost m = self@;
        let mut out: Vec<(String, String)> = Vec::new();
        let mut last: Option<Vec<char>> = None;
        let mut remaining: usize = count_above_exec(&self.entries, &last, Ghost(es));
        loop
            invariant_except_break
                es == self.entries@,
                m == self@,
                m == pairs_map(es),
                n == es.len(),
                pair_keys_increasing(out@),
                forall|i: int| 0 <= i < out@.len() ==> m.contains_key(#[trigger] out@[i].0@) && m[out@[i].0@] == out@[i].1@,
                last is None <==> out@.len() == 0,
                last matches Some(l) ==> l@ == out@.last().0@,
                forall|k: Seq<char>| #[trigger] m.contains_key(k) ==> (
                    (last matches Some(l) && !seq_lt(l@, k)) <==> exists|i: int| 0 <= i < out@.len() && out@[i].0@ == k),
                remaining == count_above(es, last_view(last)),
            ensures
                is_sorted_body(out@, m),
            decreases remaining,
        {
            let mut best: Option<usize> = None;
            let mut j: usize = 0;
            while j < n
                invariant
                    es == self.entries@,
                    n == es.len(),
                    j <= n,
                    best matches Some(b) ==> b < j && above(last_view(last), es[b as int].0@)
                        && (forall|i: int| 0 <= i < j && above(last_view(last), #[trigger] es[i].0@) ==> !seq_lt(es[i].0@, es[b as int].0@))
                        && (forall|i: int| b < i < j ==> (#[trigger] es[i]).0@ != es[b as int].0@),
                    best is None ==> forall|i: int| 0 <= i < j ==> !above(last_view(last), #[trigger] es[i].0@),
                decreases n - j,
            {
                let key = chars_of(self.entries[j].0.as_str());
                let is_above = match &last {
                    Some(l) => seq_lt_exec(l, &key),
                    None => true,
                };
                if is_above {
                    proof {
                        lemma_seq_lt_irreflexive(key@);
                    }
                    match best {
                        None => {
                            best = Some(j);
                        },
                        Some(b) => {
                            let bk = chars_of(self.entries[b].0.as_str());
                            if seq_lt_exec(&key, &bk) {
                                proof {
                                    assert forall|i: int| 0 <= i < j && above(last_view(last), #[trigger] es[i].0@) implies !seq_lt(es[i].0@, key@) by {
                                        if seq_lt(es[i].0@, key@) {
                                            lemma_seq_lt_transitive(es[i].0@, key@, bk@);
                                        }
                                    }
                                    lemma_seq_lt_asymmetric(key@, bk@);
                                    lemma_seq_lt_irreflexive(key@);
                                }
                                best = Some(j);
                            } else if seq_eq_exec(&key, &bk) {
                                best = Some(j);
                            } else {
                                proof {
                                    lemma_seq_lt_total(key@, bk@);
                                    lemma_seq_lt_asymmetric(bk@, key@);
                                }
                            }
                        },
                    }
                }
                j = j + 1;
            }
            match best {
                None => {
                    proof {
                        assert forall|k: Seq<char>| #[trigger] m.contains_key(k) implies exists|i: int| 0 <= i < out@.len() && out@[i].0@ == k by {
                            lemma_pairs_map_dom(es, k);
                            let q = choose|q: int| 0 <= q < es.len() && (#[trigger] es[q]).0@ == k;
                            assert(!above(last_view(last), es[q].0@));
                            match last {
                                Some(l) => {
                                    assert(!seq_lt(l@, k));
                                },
                                None => {},
                            }
                        }
                    }
                    break;
                },
                Some(b) => {
                    let ghost old_last = last_view(last);
                    let ghost old_out = out@;
                    let bk = chars_of(self.entries[b].0.as_str());
                    proof {
                        lemma_pairs_map_last(es, bk@, b as int);
                        lemma_count_above_drops(es, old_last, bk@, b as int);
                    }
                    out.push((self.entries[b].0.clone(), self.entries[b].1.clone()));
                    last = Some(bk);
                    remaining = count_above_exec(&self.entries, &last, Ghost(es));
                    proof {
                        assert forall|i: int, i2: int| 0 <= i < i2 < out@.len() implies seq_lt(#[trigger] out@[i].0@, #[trigger] out@[i2].0@) by {
                            if i2 == out@.len() - 1 && i < old_out.len() {
                                let l = old_out.last().0@;
                                if i < old_out.len() - 1 {
                                    assert(seq_lt(old_out[i].0@, l));
                                    lemma_seq_lt_transitive(old_out[i].0@, l, bk@);
                                }
                            } else {
                                assert(out@[i] == old_out[i]);
                                assert(out@[i2] == old_out[i2]);
                            }
                        }
                        assert forall|k: Seq<char>| #[trigger] m.contains_key(k) implies (
                            !seq_lt(bk@, k) <==> exists|i: int| 0 <= i < out@.len() && out@[i].0@ == k) by {
                            if !seq_lt(bk@, k) {
                                match old_last {
                                    Some(l) => {
                                        if seq_lt(l, k) {
                                            lemma_pairs_map_dom(es, k);
                                            let q = choose|q: int| 0 <= q < es.len() && (#[trigger] es[q]).0@ == k;
                                            assert(above(old_last, es[q].0@));
                                            assert(!seq_lt(es[q].0@, bk@));
                                            lemma_seq_lt_total(k, bk@);
                                            assert(out@[out@.len() - 1].0@ == k);
                                        } else {
                                            let i = choose|i: int| 0 <= i < old_out.len() && old_out[i].0@ == k;
                                            assert(out@[i] == old_out[i]);
                                        }
                                    },
                                    None => {
                                        lemma_pairs_map_dom(es, k);
                                        let q = choose|q: int| 0 <= q < es.len() && (#[trigger] es[q]).0@ == k;
                                        assert(!seq_lt(es[q].0@, bk@));
                                        lemma_seq_lt_total(k, bk@);
                                        assert(out@[out@.len() - 1].0@ == k);
                                    },
                                }
                            } else {
                                if exists|i: int| 0 <= i < out@.len() && out@[i].0@ == k {
                                    let i = choose|i: int| 0 <= i < out@.len() && out@[i].0@ == k;
                                    if i == out@.len() - 1 {
                                        lemma_seq_lt_irreflexive(k);
                                    } else {
                                        assert(out@[i] == old_out[i]);
                                        match old_last {
                                            Some(l) => {
                                                assert(!seq_lt(l, k));
                                                lemma_seq_lt_total(l, k);
                                                if l != k {
                                                    lemma_seq_lt_transitive(k, l, bk@);
                                                    lemma_seq_lt_asymmetric(k, bk@);
                                                } else {
                                                    lemma_seq_lt_asymmetric(l, bk@);
                                                }
                                            },
                                            None => {},
                                        }
                                    }
                                }
                            }
                        }
                    }
                },
            }
        }
        out
    }
}

/// The bound a key must lie above (`None`: no bound).
pub open spec fn last_view(last: Option<Vec<char>>) -> Option<Seq<char>> {
    match last {
        Some(l) => Some(l@),
        None => None,
    }
}

pub open spec fn above(bound: Option<Seq<char>>, k: Seq<char>) -> bool {
    match bound {
        Some(l) => seq_lt(l, k),
        None => true,
    }
}

/// How many entries have a name above the bound.
pub open spec fn count_above(es: Seq<(String, String)>, bound: Option<Seq<char>>) -> nat
    decreases es.len(),
{
    if es.len() == 0 {
        0
    } else {
        count_above(es.drop_last(), bound) + if above(bound, es.last().0@) { 1nat } else { 0nat }
    }
}

/// Raising the bound to the name of an entry above it drops that entry.
proof fn lemma_count_above_drops(es: Seq<(String, String)>, bound: Option<Seq<char>>, k: Seq<char>, b: int)
    requires
        0 <= b < es.len(),
        es[b].0@ == k,
        above(bound, k),
    ensures
        count_above(es, Some(k)) < count_above(es, bound),
    decreases es.len(),
{
    lemma_count_above_mono(es.drop_last(), bound, k);
    if b < es.len() - 1 {
        lemma_count_above_drops(es.drop_last(), bound, k, b);
    } else {
        lemma_seq_lt_irreflexive(k);
    }
    let x = es.last().0@;
    if seq_lt(k, x) {
        match bound {
            Some(l) => lemma_seq_lt_transitive(l, k, x),
            None => {},
        }
    }
}

proof fn lemma_count_above_mono(es: Seq<(String, String)>, bound: Option<Seq<char>>, k: Seq<char>)
    requires
        above(bound, k),
    ensures
        count_above(es, Some(k)) <= count_above(es, bound),
    decreases es.len(),
{
    if es.len() > 0 {
        lemma_count_above_mono(es.drop_last(), bound, k);
        let x = es.last().0@;
        if seq_lt(k, x) {
            match bound {
                Some(l) => lemma_seq_lt_transitive(l, k, x),
                None => {},
            }
        }
    }
}

fn count_above_exec(es: &Vec<(String, String)>, last: &Option<Vec<char>>, Ghost(g): Ghost<Seq<(String, String)>>) -> (r: usize)
    requires
        g == es@,
    ensures
        r == count_above(es@, last_view(*last)),
{
    let mut c: usize = 0;
    let mut i: usize = 0;
    while i < es.len()
        invariant
            i <= es@.len(),
            c == count_above(es@.take(i as int), last_view(*last)),
            c <= i,
        decreases es@.len() - i,
    {
        assert(es@.take(i + 1).drop_last() =~= es@.take(i as int));
        let key = chars_of(es[i].0.as_str());
        let is_above = match last {
            Some(l) => seq_lt_exec(l, &key),
            None => true,
        };
        if is_above {
            c = c + 1;
        }
        i = i + 1;
    }
    assert(es@.take(es@.len() as int) =~= es@);
    c
}

} // verus!
