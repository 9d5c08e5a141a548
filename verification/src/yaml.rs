//! The YAML documents of the configuration, as far as the configuration
//! logic reads them: mappings (in insertion order), strings, booleans, string
//! lists, and any other value kept as its YAML text.

use vstd::prelude::*;
use crate::text::{chars_of, first_in, lemma_first_in, lemma_first_in_found, lemma_first_in_none, opt_int, seq_eq_exec, string_views};

verus! {

/// A mapping key: a string, or any other value as its YAML text.
#[derive(Debug)]
pub enum YamlKey {
    Text(String),
    Encoded(String),
}

/// A YAML value.
#[derive(Debug)]
pub enum YamlNode {
    /// A string.
    Text(String),
    /// A boolean.
    Flag(bool),
    /// A sequence of strings.
    Texts(Vec<String>),
    /// Any other value (null, a number, a sequence, a tagged value), as its
    /// YAML text.
    Encoded(String),
    /// A mapping, in insertion order.
    Mapping(Vec<(YamlKey, YamlNode)>),
}

pub enum KeyView {
    Text(Seq<char>),
    Encoded(Seq<char>),
}

pub enum NodeView {
    Text(Seq<char>),
    Flag(bool),
    Texts(Seq<Seq<char>>),
    Encoded(Seq<char>),
    Mapping(Seq<(KeyView, NodeView)>),
}

pub open spec fn key_view(k: YamlKey) -> KeyView {
    match k {
        YamlKey::Text(s) => KeyView::Text(s@),
        YamlKey::Encoded(s) => KeyView::Encoded(s@),
    }
}

pub open spec fn node_view(n: YamlNode) -> NodeView
    decreases n, 0int,
{
    match n {
        YamlNode::Text(s) => NodeView::Text(s@),
        YamlNode::Flag(b) => NodeView::Flag(b),
        YamlNode::Texts(v) => NodeView::Texts(string_views(v@)),
        YamlNode::Encoded(s) => NodeView::Encoded(s@),
        YamlNode::Mapping(v) => NodeView::Mapping(entries_view(v@, v@.len() as int)),
    }
}

/// The views of the first `k` entries.
pub open spec fn entries_view(s: Seq<(YamlKey, YamlNode)>, k: int) -> Seq<(KeyView, NodeView)>
    decreases s, k,
{
    if k <= 0 || k > s.len() {
        seq![]
    } else {
        entries_view(s, k - 1).push((key_view(s[k - 1].0), node_view(s[k - 1].1)))
    }
}

pub open spec fn view_entries(s: Seq<(YamlKey, YamlNode)>) -> Seq<(KeyView, NodeView)> {
    entries_view(s, s.len() as int)
}

pub open spec fn opt_node_view(n: Option<YamlNode>) -> Option<NodeView> {
    match n {
        Some(x) => Some(node_view(x)),
        None => None,
    }
}

pub proof fn lemma_entries_view(s: Seq<(YamlKey, YamlNode)>, k: int)
    requires
        0 <= k <= s.len(),
    ensures
        entries_view(s, k).len() == k,
        forall|i: int| 0 <= i < k ==> #[trigger] entries_view(s, k)[i] == (key_view(s[i].0), node_view(s[i].1)),
    decreases k,
{
    if k > 0 {
        lemma_entries_view(s, k - 1);
    }
}

pub proof fn lemma_view_entries(s: Seq<(YamlKey, YamlNode)>)
    ensures
        view_entries(s).len() == s.len(),
        forall|i: int| 0 <= i < s.len() ==> #[trigger] view_entries(s)[i] == (key_view(s[i].0), node_view(s[i].1)),
{
    lemma_entries_view(s, s.len() as int);
}

// ---------------------------------------------------------------------------
// Keys and lookups.
fn key_eq(a: &YamlKey, b: &YamlKey) -> (r: bool)
    ensures
        r == (key_view(*a) == key_view(*b)),
{
    match (a, b) {
        (YamlKey::Text(x), YamlKey::Text(y)) => seq_eq_exec(&chars_of(x.as_str()), &chars_of(y.as_str())),
        (YamlKey::Encoded(x), YamlKey::Encoded(y)) => seq_eq_exec(&chars_of(x.as_str()), &chars_of(y.as_str())),
        _ => false,
    }
}

fn clone_key(k: &YamlKey) -> (r: YamlKey)
    ensures
        key_view(r) == key_view(*k),
{
    match k {
        YamlKey::Text(s) => YamlKey::Text(s.clone()),
        YamlKey::Encoded(s) => YamlKey::Encoded(s.clone()),
    }
}

fn clone_texts(v: &Vec<String>) -> (r: Vec<String>)
    ensures
        string_views(r@) == string_views(v@),
{
    let mut out: Vec<String> = Vec::new();
    let mut i: usize = 0;
    while i < v.len()
        invariant
            i <= v@.len(),
            string_views(out@) == string_views(v@).take(i as int),
        decreases v@.len() - i,
    {
        let ghost before = out@;
        out.push(v[i].clone());
        assert(string_views(out@) =~= string_views(before).push(v@[i as int]@));
        i = i + 1;
        assert(string_views(out@) =~= string_views(v@).take(i as int));
    }
    assert(string_views(v@).take(v@.len() as int) =~= string_views(v@));
    out
}

/// A copy of a value.
pub fn clone_node(n: &YamlNode) -> (r: YamlNode)
    ensures
        node_view(r) == node_view(*n),
    decreases n,
{
    match n {
        YamlNode::Text(s) => YamlNode::Text(s.clone()),
        YamlNode::Flag(b) => YamlNode::Flag(*b),
        YamlNode::Texts(v) => YamlNode::Texts(clone_texts(v)),
        YamlNode::Encoded(s) => YamlNode::Encoded(s.clone()),
        YamlNode::Mapping(v) => {
            let mut out: Vec<(YamlKey, YamlNode)> = Vec::new();
            let mut i: usize = 0;
            while i < v.len()
                invariant
                    *n == YamlNode::Mapping(*v),
                    i <= v@.len(),
                    out@.len() == i,
                    forall|j: int| 0 <= j < i ==> key_view(#[trigger] out@[j].0) == key_view(v@[j].0)
                        && node_view(out@[j].1) == node_view(v@[j].1),
                decreases v@.len() - i,
            {
                assert(decreases_to!(*n => v@[i as int].1)) by {
                    assert(decreases_to!(*n => (*n)->Mapping_0));
                    assert((*n)->Mapping_0 == *v);
                    assert(decreases_to!(*v => v@));
                    assert(decreases_to!(v@ => v@[i as int]));
                }
                let c = clone_node(&v[i].1);
                out.push((clone_key(&v[i].0), c));
                i = i + 1;
            }
            proof {
                lemma_view_entries(out@);
                lemma_view_entries(v@);
                assert(view_entries(out@) =~= view_entries(v@));
            }
            YamlNode::Mapping(out)
        },
    }
}

pub open spec fn key_pred(s: Seq<(KeyView, NodeView)>, k: KeyView) -> spec_fn(int) -> bool {
    |i: int| s[i].0 == k
}

/// The position of a key in a mapping (the first, should it repeat).
pub open spec fn key_index(s: Seq<(KeyView, NodeView)>, k: KeyView) -> Option<int> {
    first_in(0, s.len() as int, key_pred(s, k))
}

/// The value of a key in a mapping.
pub open spec fn lookup(s: Seq<(KeyView, NodeView)>, k: KeyView) -> Option<NodeView> {
    match key_index(s, k) {
        Some(i) => Some(s[i].1),
        None => None,
    }
}

fn find_key(v: &Vec<(YamlKey, YamlNode)>, k: &YamlKey) -> (r: Option<usize>)
    ensures
        opt_int(r) == key_index(view_entries(v@), key_view(*k)),
        r matches Some(i) ==> i < v@.len(),
{
    proof {
        lemma_view_entries(v@);
    }
    let mut i: usize = 0;
    while i < v.len()
        invariant
            i <= v@.len(),
            view_entries(v@).len() == v@.len(),
            forall|j: int| 0 <= j < v@.len() ==> #[trigger] view_entries(v@)[j] == (key_view(v@[j].0), node_view(v@[j].1)),
            forall|j: int| 0 <= j < i ==> !(#[trigger] key_pred(view_entries(v@), key_view(*k))(j)),
        decreases v@.len() - i,
    {
        if key_eq(&v[i].0, k) {
            proof {
                lemma_first_in_found(0, v@.len() as int, key_pred(view_entries(v@), key_view(*k)), i as int);
            }
            return Some(i);
        }
        i = i + 1;
    }
    proof {
        lemma_first_in_none(0, v@.len() as int, key_pred(view_entries(v@), key_view(*k)));
    }
    None
}

/// The entries of a mapping; none for any other value.
pub open spec fn mapping_entries(n: NodeView) -> Seq<(KeyView, NodeView)> {
    match n {
        NodeView::Mapping(e) => e,
        _ => seq![],
    }
}

/// The value under a string key of a mapping (`Mapping::get`).
pub fn get_field(entries: &Vec<(YamlKey, YamlNode)>, key: &str) -> (r: Option<YamlNode>)
    ensures
        opt_node_view(r) == lookup(view_entries(entries@), KeyView::Text(key@)),
{
    let k = YamlKey::Text(key.to_owned());
    proof {
        lemma_view_entries(entries@);
    }
    match find_key(entries, &k) {
        Some(i) => Some(clone_node(&entries[i].1)),
        None => None,
    }
}

/// The string under a key of a mapping value (`as_mapping`, `get`,
/// `as_str`).
pub open spec fn string_field(n: NodeView, key: Seq<char>) -> Option<Seq<char>> {
    match lookup(mapping_entries(n), KeyView::Text(key)) {
        Some(NodeView::Text(s)) => Some(s),
        _ => None,
    }
}

pub fn yaml_string(value: &YamlNode, key: &str) -> (r: Option<String>)
    ensures
        crate::parser::opt_view(r) == string_field(node_view(*value), key@),
{
    match value {
        YamlNode::Mapping(entries) => match get_field(entries, key) {
            Some(YamlNode::Text(s)) => Some(s),
            _ => None,
        },
        _ => {
            proof {
                lemma_first_in_none(0, 0, key_pred(seq![], KeyView::Text(key@)));
            }
            None
        },
    }
}

/// The value under a key of a mapping value; an empty mapping otherwise
/// (`section_from_value`).
pub open spec fn field_or_empty(n: NodeView, key: Seq<char>) -> NodeView {
    match lookup(mapping_entries(n), KeyView::Text(key)) {
        Some(v) => v,
        None => NodeView::Mapping(seq![]),
    }
}

pub fn section_from_value(value: &YamlNode, key: &str) -> (r: YamlNode)
    ensures
        node_view(r) == field_or_empty(node_view(*value), key@),
{
    match value {
        YamlNode::Mapping(entries) => match get_field(entries, key) {
            Some(v) => v,
            None => {
                let e: Vec<(YamlKey, YamlNode)> = Vec::new();
                assert(view_entries(e@) =~= Seq::<(KeyView, NodeView)>::empty());
                YamlNode::Mapping(e)
            },
        },
        _ => {
            proof {
                lemma_first_in_none(0, 0, key_pred(seq![], KeyView::Text(key@)));
            }
            let e: Vec<(YamlKey, YamlNode)> = Vec::new();
            assert(view_entries(e@) =~= Seq::<(KeyView, NodeView)>::empty());
            YamlNode::Mapping(e)
        },
    }
}

// ---------------------------------------------------------------------------
// Setting a field.
/// `Mapping::insert` under a string key of the value, made a mapping first
/// when it is not one: an existing key keeps its place and takes the new
/// value; a new key goes last.
pub open spec fn with_field(n: NodeView, key: Seq<char>, v: NodeView) -> NodeView {
    let e = mapping_entries(n);
    match key_index(e, KeyView::Text(key)) {
        Some(i) => NodeView::Mapping(e.update(i, (e[i].0, v))),
        None => NodeView::Mapping(e.push((KeyView::Text(key), v))),
    }
}

pub fn set_field(node: YamlNode, key: &str, value: YamlNode) -> (r: YamlNode)
    ensures
        node_view(r) == with_field(node_view(node), key@, node_view(value)),
{
    let mut entries: Vec<(YamlKey, YamlNode)> = match node {
        YamlNode::Mapping(e) => e,
        _ => Vec::new(),
    };
    proof {
        lemma_view_entries(entries@);
        assert(view_entries(entries@) =~= mapping_entries(node_view(node)));
    }
    let k = YamlKey::Text(key.to_owned());
    let ghost before = entries@;
    match find_key(&entries, &k) {
        Some(i) => {
            let old_key = clone_key(&entries[i].0);
            entries.set(i, (old_key, value));
            proof {
                lemma_view_entries(entries@);
                lemma_view_entries(before);
                assert(view_entries(entries@) =~= view_entries(before).update(i as int, (view_entries(before)[i as int].0, node_view(value))));
            }
        },
        None => {
            entries.push((k, value));
            proof {
                lemma_view_entries(entries@);
                lemma_view_entries(before);
                assert(view_entries(entries@) =~= view_entries(before).push((KeyView::Text(key@), node_view(value))));
            }
        },
    }
    YamlNode::Mapping(entries)
}

// ---------------------------------------------------------------------------
// Deep merge.
pub open spec fn swap_removed<A>(s: Seq<A>, i: int) -> Seq<A> {
    s.update(i, s.last()).drop_last()
}

/// `over` merged onto `base`: two mappings merge key by key (each key of
/// `over`, in order, is taken out of the base with `swap_remove` and put
/// back last with the merged value); otherwise `over` wins.
pub open spec fn merge_into(base: Option<NodeView>, over: NodeView) -> NodeView
    decreases over, 0int,
{
    match over {
        NodeView::Mapping(o) => match base {
            Some(NodeView::Mapping(b)) => NodeView::Mapping(merge_entries(b, o, o.len() as int)),
            _ => over,
        },
        _ => over,
    }
}

/// The base entries after merging the first `k` entries of `o`.
pub open spec fn merge_entries(b: Seq<(KeyView, NodeView)>, o: Seq<(KeyView, NodeView)>, k: int) -> Seq<(KeyView, NodeView)>
    decreases o, k,
{
    if k <= 0 || k > o.len() {
        b
    } else {
        let acc = merge_entries(b, o, k - 1);
        let key = o[k - 1].0;
        match key_index(acc, key) {
            Some(i) => swap_removed(acc, i).push((key, merge_into(Some(acc[i].1), o[k - 1].1))),
            None => acc.push((key, merge_into(None, o[k - 1].1))),
        }
    }
}

/// `deep_merge`: a missing override leaves the base; with neither, an
/// empty mapping.
pub open spec fn merged(base: Option<NodeView>, over: Option<NodeView>) -> NodeView {
    match over {
        Some(v) => merge_into(base, v),
        None => match base {
            Some(b) => b,
            None => NodeView::Mapping(seq![]),
        },
    }
}

fn merge_into_exec(base: Option<YamlNode>, over: YamlNode) -> (r: YamlNode)
    ensures
        node_view(r) == merge_into(opt_node_view(base), node_view(over)),
    decreases over,
{
    match over {
        YamlNode::Mapping(o) => match base {
            Some(YamlNode::Mapping(b)) => {
                proof {
                    lemma_view_entries(o@);
                    lemma_view_entries(b@);
                }
                let m = merge_entries_exec(b, o);
                YamlNode::Mapping(m)
            },
            _ => YamlNode::Mapping(o),
        },
        other => other,
    }
}

fn merge_entries_exec(b: Vec<(YamlKey, YamlNode)>, o: Vec<(YamlKey, YamlNode)>) -> (r: Vec<(YamlKey, YamlNode)>)
    ensures
        view_entries(r@) == merge_entries(view_entries(b@), view_entries(o@), o@.len() as int),
    decreases o,
{
    let ghost bv = view_entries(b@);
    let ghost ov = view_entries(o@);
    let ghost o0 = o@;
    proof {
        lemma_view_entries(o@);
        lemma_view_entries(b@);
    }
    let mut acc = b;
    let mut rest = o;
    let mut j: usize = 0;
    let n = rest.len();
    while j < n
        invariant
            n == o0.len(),
            j <= n,
            ov == view_entries(o0),
            ov.len() == o0.len(),
            forall|q: int| 0 <= q < o0.len() ==> #[trigger] ov[q] == (key_view(o0[q].0), node_view(o0[q].1)),
            rest@ == o0.subrange(j as int, n as int),
            view_entries(acc@) == merge_entries(bv, ov, j as int),
            decreases_to!(o => o0),
        decreases n - j,
    {
        let e = rest.remove(0);
        assert(e == o0[j as int]);
        assert(rest@ =~= o0.subrange(j + 1, n as int));
        let (key, value) = e;
        let ghost accv = view_entries(acc@);
        proof {
            lemma_view_entries(acc@);
        }
        let found = find_key(&acc, &key);
        assert(decreases_to!(o => value)) by {
            assert(decreases_to!(o0 => o0[j as int]));
        }
        match found {
            Some(i) => {
                let last_ix = acc.len() - 1;
                let ghost before = acc@;
                let (_old_key, old_value) = acc.swap_remove(i);
                let merged_value = merge_into_exec(Some(old_value), value);
                acc.push((key, merged_value));
                proof {
                    lemma_view_entries(acc@);
                    lemma_view_entries(before);
                    assert(view_entries(acc@) =~= swap_removed(accv, i as int).push((key_view(o0[j as int].0), merge_into(Some(accv[i as int].1), ov[j as int].1))));
                }
            },
            None => {
                let ghost before = acc@;
                let merged_value = merge_into_exec(None, value);
                acc.push((key, merged_value));
                proof {
                    lemma_view_entries(acc@);
                    lemma_view_entries(before);
                    assert(view_entries(acc@) =~= accv.push((key_view(o0[j as int].0), merge_into(None, ov[j as int].1))));
                }
            },
        }
        j = j + 1;
    }
    acc
}

/// `deep_merge` of two optional values.
pub fn deep_merge(base: Option<YamlNode>, over: Option<YamlNode>) -> (r: YamlNode)
    ensures
        node_view(r) == merged(opt_node_view(base), opt_node_view(over)),
{
    match over {
        Some(v) => merge_into_exec(base, v),
        None => match base {
            Some(b) => b,
            None => {
                let e: Vec<(YamlKey, YamlNode)> = Vec::new();
                assert(view_entries(e@) =~= Seq::<(KeyView, NodeView)>::empty());
                YamlNode::Mapping(e)
            },
        },
    }
}


// ---------------------------------------------------------------------------
// What a merge keeps.
/// No key occurs twice (true of every mapping a YAML document yields).
pub open spec fn unique_keys(s: Seq<(KeyView, NodeView)>) -> bool {
    forall|i: int, j: int| 0 <= i < j < s.len() ==> #[trigger] s[i].0 != #[trigger] s[j].0
}

pub open spec fn has_key(s: Seq<(KeyView, NodeView)>, k: KeyView) -> bool {
    exists|p: int| 0 <= p < s.len() && #[trigger] s[p].0 == k
}

proof fn lemma_lookup_at(s: Seq<(KeyView, NodeView)>, k: KeyView, p: int)
    requires
        unique_keys(s),
        0 <= p < s.len(),
        s[p].0 == k,
    ensures
        key_index(s, k) == Some(p),
        lookup(s, k) == Some(s[p].1),
{
    assert forall|j: int| 0 <= j < p implies !#[trigger] key_pred(s, k)(j) by {
        assert(s[j].0 != s[p].0);
    }
    lemma_first_in_found(0, s.len() as int, key_pred(s, k), p);
}

proof fn lemma_lookup_absent(s: Seq<(KeyView, NodeView)>, k: KeyView)
    requires
        !has_key(s, k),
    ensures
        key_index(s, k) is None,
        lookup(s, k) is None,
{
    assert forall|j: int| 0 <= j < s.len() implies !#[trigger] key_pred(s, k)(j) by {
        if s[j].0 == k {
            assert(has_key(s, k));
        }
    }
    lemma_first_in_none(0, s.len() as int, key_pred(s, k));
}

proof fn lemma_lookup_some(s: Seq<(KeyView, NodeView)>, k: KeyView)
    requires
        has_key(s, k),
    ensures
        key_index(s, k) matches Some(i) && 0 <= i < s.len() && s[i].0 == k,
{
    let p = choose|p: int| 0 <= p < s.len() && #[trigger] s[p].0 == k;
    lemma_first_in(0, s.len() as int, key_pred(s, k));
    if key_index(s, k) is None {
        assert(key_pred(s, k)(p));
    }
}

/// The lookups into the merged entries after `j` override entries: keys of
/// those entries hold the merged value, all other keys their base value.
pub open spec fn merge_state_ok(b: Seq<(KeyView, NodeView)>, o: Seq<(KeyView, NodeView)>, j: int) -> bool {
    let acc = merge_entries(b, o, j);
    &&& unique_keys(acc)
    &&& forall|k: KeyView| #![trigger has_key(acc, k)] #![trigger lookup(acc, k)]
        has_key(acc, k) <==> (has_key(b, k) || has_key(o.take(j), k))
    &&& forall|q: int| #![trigger o[q]] 0 <= q < j ==> lookup(acc, o[q].0) == Some(merge_into(lookup(b, o[q].0), o[q].1))
    &&& forall|k: KeyView| #![trigger lookup(acc, k)] !has_key(o.take(j), k) ==> lookup(acc, k) == lookup(b, k)
}

proof fn lemma_merge_state(b: Seq<(KeyView, NodeView)>, o: Seq<(KeyView, NodeView)>, j: int)
    requires
        unique_keys(b),
        unique_keys(o),
        0 <= j <= o.len(),
    ensures
        merge_state_ok(b, o, j),
    decreases j,
{
    if j == 0 {
        assert(o.take(0) =~= Seq::<(KeyView, NodeView)>::empty());
        assert(merge_entries(b, o, 0) == b);
        assert forall|k: KeyView| !has_key(o.take(0), k) implies lookup(merge_entries(b, o, 0), k) == lookup(b, k) by {}
        assert forall|k: KeyView| has_key(b, k) <==> (has_key(b, k) || has_key(o.take(0), k)) by {
            if has_key(o.take(0), k) {
                let p = choose|p: int| 0 <= p < o.take(0).len() && #[trigger] o.take(0)[p].0 == k;
            }
        }
    } else {
        lemma_merge_state(b, o, j - 1);
        let acc = merge_entries(b, o, j - 1);
        let key = o[j - 1].0;
        let v = o[j - 1].1;
        let next = merge_entries(b, o, j);
        let prev_keys = o.take(j - 1);
        let keys = o.take(j);
        assert(keys =~= prev_keys.push(o[j - 1]));
        // The new key is not among the earlier override keys.
        assert(!has_key(prev_keys, key)) by {
            if has_key(prev_keys, key) {
                let p = choose|p: int| 0 <= p < prev_keys.len() && #[trigger] prev_keys[p].0 == key;
                assert(o[p].0 == o[j - 1].0);
            }
        }
        assert(lookup(acc, key) == lookup(b, key));
        assert forall|k: KeyView| has_key(keys, k) <==> (has_key(prev_keys, k) || k == key) by {
            if has_key(keys, k) {
                let p = choose|p: int| 0 <= p < keys.len() && #[trigger] keys[p].0 == k;
                if p < j - 1 {
                    assert(prev_keys[p].0 == k);
                }
            }
            if has_key(prev_keys, k) {
                let p = choose|p: int| 0 <= p < prev_keys.len() && #[trigger] prev_keys[p].0 == k;
                assert(keys[p].0 == k);
            }
            if k == key {
                assert(keys[j - 1].0 == k);
            }
        }
        if has_key(acc, key) {
            lemma_lookup_some(acc, key);
            let i = key_index(acc, key)->0;
            lemma_lookup_at(acc, key, i);
            let rem = swap_removed(acc, i);
            let newv = merge_into(Some(acc[i].1), v);
            assert(next == rem.push((key, newv)));
            // `rem` holds every key of `acc` but `key`, each once, at a known place.
            assert forall|p: int| 0 <= p < rem.len() implies #[trigger] rem[p] == (if p == i { acc[acc.len() - 1] } else { acc[p] }) by {}
            assert forall|p: int, q: int| 0 <= p < q < next.len() implies #[trigger] next[p].0 != #[trigger] next[q].0 by {
                if q == next.len() - 1 {
                    if p == i {
                        assert(acc[acc.len() - 1].0 != acc[i].0 || acc.len() - 1 == i);
                    } else {
                        assert(acc[p].0 != acc[i].0);
                    }
                } else {
                    let pp = if p == i { acc.len() - 1 } else { p };
                    let qq = if q == i { acc.len() - 1 } else { q };
                    assert(pp != qq);
                    assert(acc[pp].0 != acc[qq].0);
                }
            }
            assert forall|k: KeyView| k != key implies (has_key(next, k) <==> has_key(acc, k)) && lookup(next, k) == lookup(acc, k) by {
                if has_key(acc, k) {
                    let p = choose|p: int| 0 <= p < acc.len() && #[trigger] acc[p].0 == k;
                    assert(p != i);
                    let np = if p == acc.len() - 1 { i } else { p };
                    assert(next[np] == acc[p]);
                    lemma_lookup_at(acc, k, p);
                    lemma_lookup_at(next, k, np);
                } else {
                    assert(!has_key(next, k)) by {
                        if has_key(next, k) {
                            let p = choose|p: int| 0 <= p < next.len() && #[trigger] next[p].0 == k;
                            let pp = if p == i { acc.len() - 1 } else { p };
                            assert(acc[pp].0 == k);
                        }
                    }
                    lemma_lookup_absent(acc, k);
                    lemma_lookup_absent(next, k);
                }
            }
            assert(next[next.len() - 1].0 == key);
            lemma_lookup_at(next, key, next.len() - 1);
        } else {
            lemma_lookup_absent(acc, key);
            assert(lookup(b, key) is None);
            let newv = merge_into(None, v);
            assert(next == acc.push((key, newv)));
            assert forall|p: int, q: int| 0 <= p < q < next.len() implies #[trigger] next[p].0 != #[trigger] next[q].0 by {
                if q == next.len() - 1 {
                    if acc[p].0 == key {
                        assert(has_key(acc, key));
                    }
                } else {
                    assert(acc[p].0 != acc[q].0);
                }
            }
            assert forall|k: KeyView| k != key implies (has_key(next, k) <==> has_key(acc, k)) && lookup(next, k) == lookup(acc, k) by {
                if has_key(acc, k) {
                    let p = choose|p: int| 0 <= p < acc.len() && #[trigger] acc[p].0 == k;
                    assert(next[p] == acc[p]);
                    lemma_lookup_at(acc, k, p);
                    lemma_lookup_at(next, k, p);
                } else {
                    assert(!has_key(next, k)) by {
                        if has_key(next, k) {
                            let p = choose|p: int| 0 <= p < next.len() && #[trigger] next[p].0 == k;
                            if p < acc.len() {
                                assert(acc[p].0 == k);
                            }
                        }
                    }
                    lemma_lookup_absent(acc, k);
                    lemma_lookup_absent(next, k);
                }
            }
            assert(next[next.len() - 1].0 == key);
            lemma_lookup_at(next, key, next.len() - 1);
        }
        assert forall|q: int| #![trigger o[q]] 0 <= q < j implies lookup(next, o[q].0) == Some(merge_into(lookup(b, o[q].0), o[q].1)) by {
            if q < j - 1 {
                assert(prev_keys[q] == o[q]);
                assert(o[q].0 != key);
            }
        }
        assert forall|k: KeyView| #![trigger lookup(next, k)] !has_key(keys, k) implies lookup(next, k) == lookup(b, k) by {
            assert(k != key);
        }
        assert forall|k: KeyView| #![trigger has_key(next, k)] has_key(next, k) <==> (has_key(b, k) || has_key(keys, k)) by {
            if k == key {
                assert(next[next.len() - 1].0 == key);
            }
        }
    }
}

/// Merging a mapping onto a mapping: a key of the override holds its value
/// merged onto the base's (the override's value itself when that is not a
/// mapping, or when the base lacks the key); a key only the base has keeps
/// the base's value.
pub proof fn lemma_merge_lookup(b: Seq<(KeyView, NodeView)>, o: Seq<(KeyView, NodeView)>, k: KeyView)
    requires
        unique_keys(b),
        unique_keys(o),
    ensures
        ({
            let m = mapping_entries(merge_into(Some(NodeView::Mapping(b)), NodeView::Mapping(o)));
            &&& lookup(o, k) matches Some(v) ==> lookup(m, k) == Some(merge_into(lookup(b, k), v))
            &&& lookup(o, k) is None ==> lookup(m, k) == lookup(b, k)
            &&& lookup(o, k) matches Some(v) ==> (!(v is Mapping) ==> lookup(m, k) == Some(v))
        }),
{
    lemma_merge_state(b, o, o.len() as int);
    assert(o.take(o.len() as int) =~= o);
    if has_key(o, k) {
        lemma_lookup_some(o, k);
        let q = key_index(o, k)->0;
        lemma_lookup_at(o, k, q);
    } else {
        lemma_lookup_absent(o, k);
    }
}


/// Setting a field makes it read back.
pub proof fn lemma_with_field_same(n: NodeView, key: Seq<char>, v: NodeView)
    ensures
        lookup(mapping_entries(with_field(n, key, v)), KeyView::Text(key)) == Some(v),
{
    let e = mapping_entries(n);
    let k = KeyView::Text(key);
    lemma_first_in(0, e.len() as int, key_pred(e, k));
    match key_index(e, k) {
        Some(i) => {
            let u = e.update(i, (e[i].0, v));
            assert forall|j: int| 0 <= j < i implies !#[trigger] key_pred(u, k)(j) by {
                assert(!key_pred(e, k)(j));
            }
            lemma_first_in_found(0, u.len() as int, key_pred(u, k), i);
        },
        None => {
            let u = e.push((k, v));
            assert forall|j: int| 0 <= j < e.len() implies !#[trigger] key_pred(u, k)(j) by {
                assert(!key_pred(e, k)(j));
            }
            lemma_first_in_found(0, u.len() as int, key_pred(u, k), e.len() as int);
        },
    }
}

/// Setting a field leaves the other fields as they were.
pub proof fn lemma_with_field_other(n: NodeView, key: Seq<char>, v: NodeView, other: KeyView)
    requires
        other != KeyView::Text(key),
    ensures
        lookup(mapping_entries(with_field(n, key, v)), other) == lookup(mapping_entries(n), other),
{
    let e = mapping_entries(n);
    let k = KeyView::Text(key);
    lemma_first_in(0, e.len() as int, key_pred(e, k));
    lemma_first_in(0, e.len() as int, key_pred(e, other));
    let u = mapping_entries(with_field(n, key, v));
    assert forall|j: int| 0 <= j < e.len() implies (#[trigger] key_pred(u, other)(j) == key_pred(e, other)(j)) by {}
    match key_index(e, other) {
        Some(p) => {
            lemma_first_in_found(0, u.len() as int, key_pred(u, other), p);
        },
        None => {
            if key_index(e, k) is None {
                assert(!key_pred(u, other)(e.len() as int));
            }
            lemma_first_in_none(0, u.len() as int, key_pred(u, other));
        },
    }
}



/// The value reached from `n` by following the keys of `path` through
/// mappings.
pub open spec fn at_path(n: NodeView, path: Seq<KeyView>) -> Option<NodeView>
    decreases path.len(),
{
    if path.len() == 0 {
        Some(n)
    } else {
        match n {
            NodeView::Mapping(e) => match lookup(e, path[0]) {
                Some(c) => at_path(c, path.drop_first()),
                None => None,
            },
            _ => None,
        }
    }
}

/// Every mapping inside `n`, at any depth, has unique keys.
pub open spec fn keys_unique_throughout(n: NodeView) -> bool {
    forall|path: Seq<KeyView>| #[trigger] at_path(n, path) is Some && at_path(n, path)->0 is Mapping ==> unique_keys(mapping_entries(at_path(n, path)->0))
}

/// Merging a value onto itself gives it back, up to the order of mapping
/// keys: every path reaches a value in one exactly when it does in the
/// other, the same value where that is not a mapping, and a mapping where
/// it is one.
pub proof fn lemma_merge_onto_itself(v: NodeView, path: Seq<KeyView>)
    requires
        keys_unique_throughout(v),
    ensures
        ({
            let m = merged(Some(v), Some(v));
            &&& (at_path(m, path) is Some <==> at_path(v, path) is Some)
            &&& at_path(v, path) matches Some(x) ==> (!(x is Mapping) ==> at_path(m, path) == Some(x))
            &&& at_path(v, path) matches Some(x) ==> (x is Mapping ==> at_path(m, path)->0 is Mapping)
        }),
    decreases path.len(),
{
    let m = merged(Some(v), Some(v));
    match v {
        NodeView::Mapping(e) => {
            assert(at_path(v, Seq::<KeyView>::empty()) == Some(v));
            assert(unique_keys(e));
            let me = merge_entries(e, e, e.len() as int);
            assert(m == NodeView::Mapping(me));
            if path.len() > 0 {
                let k = path[0];
                let rest = path.drop_first();
                lemma_merge_lookup(e, e, k);
                assert(mapping_entries(merge_into(Some(NodeView::Mapping(e)), NodeView::Mapping(e))) == me);
                match lookup(e, k) {
                    Some(c) => {
                        assert(lookup(me, k) == Some(merge_into(Some(c), c)));
                        assert(keys_unique_throughout(c)) by {
                            assert forall|q: Seq<KeyView>| #[trigger] at_path(c, q) is Some && at_path(c, q)->0 is Mapping implies unique_keys(mapping_entries(at_path(c, q)->0)) by {
                                let p = seq![k] + q;
                                assert(p.drop_first() =~= q);
                                assert(p[0] == k);
                                assert(at_path(v, p) == at_path(c, q));
                            }
                        }
                        lemma_merge_onto_itself(c, rest);
                        assert(merged(Some(c), Some(c)) == merge_into(Some(c), c));
                    },
                    None => {
                        assert(lookup(me, k) is None);
                    },
                }
            }
        },
        _ => {
            assert(m == v);
        },
    }
}

} // verus!
