//! Scrapers for the tixcraft game, verify, area, ticket and order pages, and
//! the page-state detectors.

use vstd::prelude::*;
use crate::fields::FormFields;
use crate::html::{option_value_parts, anchor_parts, url_pair_parts, construct_spans, constructs, row_parts, Construct, named_tag_spans, named_tags, span_ints, strip_tags, strip_tags_exec, tag_attr, tag_attr_exec};
use crate::text::{
    chars_of, collapse_ws, collapse_ws_exec, contains, contains_exec, eq_ignore_ascii_case,
    eq_ignore_ascii_case_exec, find_from, find_from_exec, first_in, lemma_first_in,
    lemma_first_in_found, lemma_first_in_none, string_of, sub_chars, to_lowercase,
    unicode_lowercase, vec_views, window_end, window_exec, window_ok, lemma_window_end,
};

verus! {

// ---------------------------------------------------------------------------
// Tags and their attributes.
pub open spec fn tag_text(s: Seq<char>, sp: (int, int)) -> Seq<char> {
    s.subrange(sp.0, sp.1)
}

/// All `<input ...>` tags.
pub open spec fn input_tags(s: Seq<char>) -> Seq<(int, int)> {
    named_tags(s, "input"@)
}

pub open spec fn attr_or_empty(t: Seq<char>, name: Seq<char>) -> Seq<char> {
    match tag_attr(t, name) {
        Some(v) => v,
        None => seq![],
    }
}

/// The tag has a `type` attribute equal, ignoring ASCII case, to `ty`.
pub open spec fn has_type(t: Seq<char>, ty: Seq<char>) -> bool {
    match tag_attr(t, "type"@) {
        Some(v) => eq_ignore_ascii_case(v, ty),
        None => false,
    }
}

pub open spec fn named_input_pred(s: Seq<char>, tags: Seq<(int, int)>, target: Seq<char>) -> spec_fn(int) -> bool {
    |x: int| tag_attr(tag_text(s, tags[x]), "name"@) == Some(target)
}

/// `extract_input_value`: the `value` (or empty) of the first `<input>`
/// whose `name` is `target`.
pub open spec fn input_value(s: Seq<char>, target: Seq<char>) -> Option<Seq<char>> {
    let tags = input_tags(s);
    match first_in(0, tags.len() as int, named_input_pred(s, tags, target)) {
        Some(x) => Some(attr_or_empty(tag_text(s, tags[x]), "value"@)),
        None => None,
    }
}

pub open spec fn spans_ok(s: Seq<char>, tags: Seq<(usize, usize)>) -> bool {
    forall|x: int| 0 <= x < tags.len() ==> (#[trigger] tags[x]).0 < tags[x].1 <= s.len()
}

fn copy_chars(v: &Vec<char>) -> (r: Vec<char>)
    ensures
        r@ == v@,
{
    let r = sub_chars(v, 0, v.len());
    assert(v@.subrange(0, v@.len() as int) =~= v@);
    r
}

fn attr_or_empty_exec(t: &Vec<char>, name: &Vec<char>) -> (r: Vec<char>)
    ensures
        r@ == attr_or_empty(t@, name@),
{
    match tag_attr_exec(t, name) {
        Some(v) => v,
        None => Vec::new(),
    }
}

fn has_type_exec(t: &Vec<char>, ty: &Vec<char>) -> (r: bool)
    ensures
        r == has_type(t@, ty@),
{
    let type_attr = chars_of("type");
    match tag_attr_exec(t, &type_attr) {
        Some(v) => eq_ignore_ascii_case_exec(&v, ty),
        None => false,
    }
}

fn input_value_exec(s: &Vec<char>, tags: &Vec<(usize, usize)>, target: &Vec<char>) -> (r: Option<Vec<char>>)
    requires
        span_ints(tags@) == input_tags(s@),
        spans_ok(s@, tags@),
    ensures
        match r {
            Some(v) => input_value(s@, target@) == Some(v@),
            None => input_value(s@, target@) is None,
        },
{
    let ghost sp = input_tags(s@);
    let name_attr = chars_of("name");
    let value_attr = chars_of("value");
    let mut x: usize = 0;
    while x < tags.len()
        invariant
            span_ints(tags@) == sp,
            sp == input_tags(s@),
            spans_ok(s@, tags@),
            x <= tags@.len(),
            name_attr@ == "name"@,
            value_attr@ == "value"@,
            forall|j: int| 0 <= j < x ==> !(#[trigger] named_input_pred(s@, sp, target@)(j)),
        decreases tags@.len() - x,
    {
        let (a, b) = tags[x];
        assert(sp[x as int] == (a as int, b as int));
        let t = sub_chars(s, a, b);
        match tag_attr_exec(&t, &name_attr) {
            Some(n) => {
                if crate::text::seq_eq_exec(&n, target) {
                    proof {
                        lemma_first_in_found(0, sp.len() as int, named_input_pred(s@, sp, target@), x as int);
                    }
                    return Some(attr_or_empty_exec(&t, &value_attr));
                }
            },
            None => {},
        }
        x = x + 1;
    }
    proof {
        lemma_first_in_none(0, sp.len() as int, named_input_pred(s@, sp, target@));
    }
    None
}

// ---------------------------------------------------------------------------
// Page-state text.
/// `contains_processing_text`: the order page is still processing.
pub open spec fn processing_text(s: Seq<char>) -> bool {
    let lower = unicode_lowercase(s);
    contains(lower, "sit tight"@) || contains(lower, "securing your"@) || contains(s, "請稍候"@)
        || contains(s, "處理中"@) || contains(lower, "processing"@)
}

/// `contains_checkout_text`: the page looks like a checkout step.
pub open spec fn checkout_text(s: Seq<char>) -> bool {
    contains(unicode_lowercase(s), "checkout"@) || contains(s, "結帳"@) || contains(s, "確認付款"@)
        || contains(s, "確認"@) || contains(s, "送出"@)
}

fn processing_text_exec(s: &Vec<char>, lower: &Vec<char>) -> (r: bool)
    requires
        lower@ == unicode_lowercase(s@),
    ensures
        r == processing_text(s@),
{
    contains_exec(lower, &chars_of("sit tight")) || contains_exec(lower, &chars_of("securing your"))
        || contains_exec(s, &chars_of("請稍候")) || contains_exec(s, &chars_of("處理中"))
        || contains_exec(lower, &chars_of("processing"))
}

fn checkout_text_exec(s: &Vec<char>, lower: &Vec<char>) -> (r: bool)
    requires
        lower@ == unicode_lowercase(s@),
    ensures
        r == checkout_text(s@),
{
    contains_exec(lower, &chars_of("checkout")) || contains_exec(s, &chars_of("結帳"))
        || contains_exec(s, &chars_of("確認付款")) || contains_exec(s, &chars_of("確認"))
        || contains_exec(s, &chars_of("送出"))
}

// ---------------------------------------------------------------------------
// Radio buttons.
/// `(name, value)` of a radio `<input>` that has both.
pub open spec fn radio_parts(s: Seq<char>, sp: (int, int)) -> Option<(Seq<char>, Seq<char>)> {
    let t = tag_text(s, sp);
    if has_type(t, "radio"@) {
        match (tag_attr(t, "name"@), tag_attr(t, "value"@)) {
            (Some(n), Some(v)) => Some((n, v)),
            _ => None,
        }
    } else {
        None
    }
}

/// `extract_label_after`: the text of the 300-byte window after a tag, cut
/// at the first `</label>`, with tags removed, whitespace collapsed and
/// lower-cased.
pub open spec fn label_after(s: Seq<char>, e: int) -> Seq<char> {
    let w = s.subrange(e, window_end(s, e, 300));
    let cut = match find_from(w, "</label>"@, 0) {
        Some(c) => w.subrange(0, c),
        None => w,
    };
    unicode_lowercase(collapse_ws(strip_tags(cut)))
}

/// A radio option: `(value, label)`.
pub type RadioOptionView = (Seq<char>, Seq<char>);

pub open spec fn group_name_pred(groups: Seq<(Seq<char>, Seq<RadioOptionView>)>, name: Seq<char>) -> spec_fn(int) -> bool {
    |g: int| groups[g].0 == name
}

pub open spec fn has_option_value(opts: Seq<RadioOptionView>, value: Seq<char>) -> bool {
    exists|o: int| 0 <= o < opts.len() && (#[trigger] opts[o]).0 == value
}

/// Adds an option to the group `name` (created on first sight), unless the
/// group already has an option with that value.
pub open spec fn add_radio(
    groups: Seq<(Seq<char>, Seq<RadioOptionView>)>,
    name: Seq<char>,
    value: Seq<char>,
    label: Seq<char>,
) -> Seq<(Seq<char>, Seq<RadioOptionView>)> {
    match first_in(0, groups.len() as int, group_name_pred(groups, name)) {
        Some(g) => if has_option_value(groups[g].1, value) {
            groups
        } else {
            groups.update(g, (name, groups[g].1.push((value, label))))
        },
        None => groups.push((name, seq![(value, label)])),
    }
}

/// `parse_radio_groups` over the given `<input>` tags: groups in order of
/// first appearance, options in order of first appearance.
pub open spec fn radio_groups_in(s: Seq<char>, tags: Seq<(int, int)>) -> Seq<(Seq<char>, Seq<RadioOptionView>)>
    decreases tags.len(),
{
    if tags.len() == 0 {
        seq![]
    } else {
        let g = radio_groups_in(s, tags.drop_last());
        match radio_parts(s, tags.last()) {
            Some((n, v)) => add_radio(g, n, v, label_after(s, tags.last().1)),
            None => g,
        }
    }
}

/// The keywords that pick a payment option, in order of preference.
pub open spec fn payment_keywords() -> Seq<Seq<char>> {
    seq!["atm"@, "虛擬帳號"@, "轉帳"@, "匯款"@, "virtual"@, "ibon"@, "超商繳費"@]
}

/// The keywords that pick a shipment option, in order of preference.
pub open spec fn shipment_keywords() -> Seq<Seq<char>> {
    seq!["ibon"@, "超商"@, "便利商店"@, "7-eleven"@, "7-11"@]
}

pub open spec fn first_value(opts: Seq<RadioOptionView>) -> Seq<char> {
    if opts.len() > 0 {
        opts[0].0
    } else {
        seq![]
    }
}

/// Whether option `o`'s label contains the keyword, lowercased.
pub open spec fn label_has_pred(opts: Seq<RadioOptionView>, kw: Seq<char>) -> spec_fn(int) -> bool {
    |o: int| contains(opts[o].1, unicode_lowercase(kw))
}

/// `select_radio_by_keywords`: for the first keyword (in order) whose
/// lowercase form some option label contains, the first such option's value;
/// otherwise the first option's value, or empty.
pub open spec fn select_by_keywords(opts: Seq<RadioOptionView>, kws: Seq<Seq<char>>) -> Seq<char>
    decreases kws.len(),
{
    if kws.len() == 0 {
        first_value(opts)
    } else {
        match first_in(0, opts.len() as int, label_has_pred(opts, kws[0])) {
            Some(o) => opts[o].0,
            None => select_by_keywords(opts, kws.drop_first()),
        }
    }
}

/// The value chosen for one radio group.
pub open spec fn group_choice(name: Seq<char>, opts: Seq<RadioOptionView>) -> Seq<char> {
    let lname = unicode_lowercase(name);
    if contains(lname, "payment"@) {
        select_by_keywords(opts, payment_keywords())
    } else if contains(lname, "shipment"@) || contains(lname, "delivery"@) {
        select_by_keywords(opts, shipment_keywords())
    } else {
        first_value(opts)
    }
}

/// Sets each group's chosen value, skipping empty choices.
pub open spec fn apply_groups(
    fields: Map<Seq<char>, Seq<char>>,
    groups: Seq<(Seq<char>, Seq<RadioOptionView>)>,
) -> Map<Seq<char>, Seq<char>>
    decreases groups.len(),
{
    if groups.len() == 0 {
        fields
    } else {
        let f = apply_groups(fields, groups.drop_last());
        let c = group_choice(groups.last().0, groups.last().1);
        if c.len() > 0 {
            f.insert(groups.last().0, c)
        } else {
            f
        }
    }
}

/// `add_checkbox_fields`: every named checkbox `<input>` set to "1".
pub open spec fn checkbox_fields_in(s: Seq<char>, tags: Seq<(int, int)>, fields: Map<Seq<char>, Seq<char>>) -> Map<Seq<char>, Seq<char>>
    decreases tags.len(),
{
    if tags.len() == 0 {
        fields
    } else {
        let f = checkbox_fields_in(s, tags.drop_last(), fields);
        let t = tag_text(s, tags.last());
        if has_type(t, "checkbox"@) && tag_attr(t, "name"@) is Some {
            f.insert(tag_attr(t, "name"@)->0, "1"@)
        } else {
            f
        }
    }
}

/// `contains_radio_inputs`: some `<input>` has type radio.
pub open spec fn has_radio_input(s: Seq<char>) -> bool {
    exists|x: int| 0 <= x < input_tags(s).len() && has_type(tag_text(s, #[trigger] input_tags(s)[x]), "radio"@)
}

/// What `parse_order_form` returns: the checkout form fields, or `None` when
/// the page is still processing, has no `_csrf` input, or offers no usable
/// choice.
pub open spec fn order_form(s: Seq<char>) -> Option<Map<Seq<char>, Seq<char>>> {
    if processing_text(s) {
        None
    } else {
        match input_value(s, "_csrf"@) {
            None => None,
            Some(csrf) => {
                let fields0 = Map::<Seq<char>, Seq<char>>::empty().insert("_csrf"@, csrf);
                let groups = radio_groups_in(s, input_tags(s));
                if groups.len() == 0 {
                    if has_radio_input(s) {
                        None
                    } else if checkout_text(s) {
                        Some(checkbox_fields_in(s, input_tags(s), fields0))
                    } else {
                        None
                    }
                } else {
                    Some(checkbox_fields_in(s, input_tags(s), apply_groups(fields0, groups)))
                }
            },
        }
    }
}

/// The 300-byte label windows of the radio inputs end on character
/// boundaries (otherwise the label slicing panics).
pub open spec fn radio_labels_cut_ok(s: Seq<char>) -> bool {
    forall|x: int| 0 <= x < input_tags(s).len() && (#[trigger] radio_parts(s, input_tags(s)[x])) is Some
        ==> window_ok(s, input_tags(s)[x].1, 300)
}

/// The inputs on which `parse_order_form` returns (on the others, slicing a
/// label window panics).
pub open spec fn order_form_input_ok(s: Seq<char>) -> bool {
    !processing_text(s) && input_value(s, "_csrf"@) is Some ==> radio_labels_cut_ok(s)
}


// ---------------------------------------------------------------------------
// Executable order-form scraping.
pub open spec fn opt_views(v: Seq<(Vec<char>, Vec<char>)>) -> Seq<RadioOptionView> {
    v.map_values(|o: (Vec<char>, Vec<char>)| (o.0@, o.1@))
}

pub open spec fn groups_view(names: Seq<Vec<char>>, opts: Seq<Vec<(Vec<char>, Vec<char>)>>) -> Seq<(Seq<char>, Seq<RadioOptionView>)> {
    Seq::new(names.len(), |g: int| (names[g]@, opt_views(opts[g]@)))
}

fn label_after_exec(s: &Vec<char>, e: usize) -> (r: Vec<char>)
    requires
        e <= s@.len(),
        window_ok(s@, e as int, 300),
    ensures
        r@ == label_after(s@, e as int),
{
    let (k, _ok) = window_exec(s, e, 300);
    proof {
        lemma_window_end(s@, e as int, 300);
    }
    let w = sub_chars(s, e, k);
    let end_tag = chars_of("</label>");
    let cut = match find_from_exec(&w, &end_tag, 0) {
        Some(c) => {
            proof {
                lemma_first_in(0, w@.len() - end_tag@.len() + 1, crate::text::matches_pred(w@, end_tag@));
            }
            sub_chars(&w, 0, c)
        },
        None => w,
    };
    let stripped = strip_tags_exec(&cut);
    let collapsed = collapse_ws_exec(&stripped);
    to_lowercase(&collapsed)
}

fn has_option_value_exec(opts: &Vec<(Vec<char>, Vec<char>)>, value: &Vec<char>) -> (r: bool)
    ensures
        r == has_option_value(opt_views(opts@), value@),
{
    let mut o: usize = 0;
    while o < opts.len()
        invariant
            o <= opts@.len(),
            forall|j: int| 0 <= j < o ==> (#[trigger] opt_views(opts@)[j]).0 != value@,
        decreases opts@.len() - o,
    {
        if crate::text::seq_eq_exec(&opts[o].0, value) {
            assert(opt_views(opts@)[o as int].0 == value@);
            return true;
        }
        o = o + 1;
    }
    false
}

fn add_radio_exec(
    names: &mut Vec<Vec<char>>,
    opts: &mut Vec<Vec<(Vec<char>, Vec<char>)>>,
    name: Vec<char>,
    value: Vec<char>,
    label: Vec<char>,
)
    requires
        old(names)@.len() == old(opts)@.len(),
    ensures
        final(names)@.len() == final(opts)@.len(),
        groups_view(final(names)@, final(opts)@) == add_radio(groups_view(old(names)@, old(opts)@), name@, value@, label@),
{
    let ghost g0 = groups_view(names@, opts@);
    let mut g: usize = 0;
    while g < names.len()
        invariant
            names@.len() == opts@.len(),
            names@ == old(names)@,
            opts@ == old(opts)@,
            g0 == groups_view(names@, opts@),
            g <= names@.len(),
            forall|j: int| 0 <= j < g ==> !(#[trigger] group_name_pred(g0, name@)(j)),
        decreases names@.len() - g,
    {
        if crate::text::seq_eq_exec(&names[g], &name) {
            proof {
                lemma_first_in_found(0, g0.len() as int, group_name_pred(g0, name@), g as int);
            }
            assert(g0[g as int].1 == opt_views(opts@[g as int]@));
            assert(g0[g as int].0 == names@[g as int]@);
            if has_option_value_exec(&opts[g], &value) {
                return;
            }
            let mut inner: Vec<(Vec<char>, Vec<char>)> = Vec::new();
            opts.set_and_swap(g, &mut inner);
            let ghost inner0 = inner@;
            inner.push((value, label));
            opts.set(g, inner);
            proof {
                assert(opt_views(inner0.push((value, label))) =~= opt_views(inner0).push((value@, label@)));
                assert(groups_view(names@, opts@) =~= g0.update(g as int, (name@, g0[g as int].1.push((value@, label@)))));
            }
            return;
        }
        g = g + 1;
    }
    proof {
        lemma_first_in_none(0, g0.len() as int, group_name_pred(g0, name@));
    }
    let ghost n0 = names@;
    let ghost o0 = opts@;
    let mut one: Vec<(Vec<char>, Vec<char>)> = Vec::new();
    one.push((value, label));
    names.push(name);
    opts.push(one);
    proof {
        assert(opt_views(one@) =~= seq![(value@, label@)]);
        assert(groups_view(names@, opts@) =~= g0.push((name@, seq![(value@, label@)])));
    }
}

fn radio_groups_exec(s: &Vec<char>, tags: &Vec<(usize, usize)>) -> (r: (Vec<Vec<char>>, Vec<Vec<(Vec<char>, Vec<char>)>>))
    requires
        span_ints(tags@) == input_tags(s@),
        spans_ok(s@, tags@),
        radio_labels_cut_ok(s@),
    ensures
        r.0@.len() == r.1@.len(),
        groups_view(r.0@, r.1@) == radio_groups_in(s@, input_tags(s@)),
{
    let ghost sp = input_tags(s@);
    let mut names: Vec<Vec<char>> = Vec::new();
    let mut opts: Vec<Vec<(Vec<char>, Vec<char>)>> = Vec::new();
    let radio = chars_of("radio");
    let name_attr = chars_of("name");
    let value_attr = chars_of("value");
    let mut x: usize = 0;
    proof {
        assert(groups_view(names@, opts@) =~= radio_groups_in(s@, sp.take(0)));
    }
    while x < tags.len()
        invariant
            span_ints(tags@) == sp,
            sp == input_tags(s@),
            spans_ok(s@, tags@),
            radio_labels_cut_ok(s@),
            x <= tags@.len(),
            radio@ == "radio"@,
            name_attr@ == "name"@,
            value_attr@ == "value"@,
            names@.len() == opts@.len(),
            groups_view(names@, opts@) == radio_groups_in(s@, sp.take(x as int)),
        decreases tags@.len() - x,
    {
        let (a, b) = tags[x];
        assert(sp[x as int] == (a as int, b as int));
        assert(sp.take(x + 1).drop_last() =~= sp.take(x as int));
        let t = sub_chars(s, a, b);
        if has_type_exec(&t, &radio) {
            match (tag_attr_exec(&t, &name_attr), tag_attr_exec(&t, &value_attr)) {
                (Some(n), Some(v)) => {
                    assert(radio_parts(s@, sp[x as int]) is Some);
                    let label = label_after_exec(s, b);
                    add_radio_exec(&mut names, &mut opts, n, v, label);
                },
                _ => {},
            }
        }
        x = x + 1;
    }
    assert(sp.take(tags@.len() as int) =~= sp);
    (names, opts)
}

fn select_by_keywords_exec(opts: &Vec<(Vec<char>, Vec<char>)>, kws: &Vec<Vec<char>>) -> (r: Vec<char>)
    ensures
        r@ == select_by_keywords(opt_views(opts@), vec_views(kws@)),
{
    let ghost ov = opt_views(opts@);
    let ghost kv = vec_views(kws@);
    assert(kv.subrange(0, kv.len() as int) =~= kv);
    let mut k: usize = 0;
    while k < kws.len()
        invariant
            ov == opt_views(opts@),
            kv == vec_views(kws@),
            k <= kws@.len(),
            select_by_keywords(ov, kv) == select_by_keywords(ov, kv.subrange(k as int, kv.len() as int)),
        decreases kws@.len() - k,
    {
        let ghost rest = kv.subrange(k as int, kv.len() as int);
        assert(rest[0] == kws@[k as int]@);
        assert(rest.drop_first() =~= kv.subrange(k + 1, kv.len() as int));
        let lower_kw = to_lowercase(&kws[k]);
        let mut o: usize = 0;
        while o < opts.len()
            invariant
                lower_kw@ == unicode_lowercase(kws@[k as int]@),
                ov == opt_views(opts@),
                kv == vec_views(kws@),
                o <= opts@.len(),
                k < kws@.len(),
                rest == kv.subrange(k as int, kv.len() as int),
                rest[0] == kws@[k as int]@,
                select_by_keywords(ov, kv) == select_by_keywords(ov, rest),
                forall|j: int| 0 <= j < o ==> !(#[trigger] label_has_pred(ov, kws@[k as int]@)(j)),
            decreases opts@.len() - o,
        {
            if contains_exec(&opts[o].1, &lower_kw) {
                proof {
                    assert(ov[o as int] == (opts@[o as int].0@, opts@[o as int].1@));
                    lemma_first_in_found(0, ov.len() as int, label_has_pred(ov, kws@[k as int]@), o as int);
                }
                return copy_chars(&opts[o].0);
            }
            assert(ov[o as int] == (opts@[o as int].0@, opts@[o as int].1@));
            o = o + 1;
        }
        proof {
            lemma_first_in_none(0, ov.len() as int, label_has_pred(ov, kws@[k as int]@));
        }
        k = k + 1;
    }
    assert(kv.subrange(kws@.len() as int, kv.len() as int).len() == 0);
    if opts.len() > 0 {
        assert(ov[0] == (opts@[0].0@, opts@[0].1@));
        copy_chars(&opts[0].0)
    } else {
        Vec::new()
    }
}

fn payment_keywords_exec() -> (r: Vec<Vec<char>>)
    ensures
        vec_views(r@) == payment_keywords(),
{
    let r = vec![
        chars_of("atm"),
        chars_of("虛擬帳號"),
        chars_of("轉帳"),
        chars_of("匯款"),
        chars_of("virtual"),
        chars_of("ibon"),
        chars_of("超商繳費"),
    ];
    assert(vec_views(r@) =~= payment_keywords());
    r
}

fn shipment_keywords_exec() -> (r: Vec<Vec<char>>)
    ensures
        vec_views(r@) == shipment_keywords(),
{
    let r = vec![
        chars_of("ibon"),
        chars_of("超商"),
        chars_of("便利商店"),
        chars_of("7-eleven"),
        chars_of("7-11"),
    ];
    assert(vec_views(r@) =~= shipment_keywords());
    r
}

fn group_choice_exec(name: &Vec<char>, opts: &Vec<(Vec<char>, Vec<char>)>) -> (r: Vec<char>)
    ensures
        r@ == group_choice(name@, opt_views(opts@)),
{
    let lname = to_lowercase(name);
    if contains_exec(&lname, &chars_of("payment")) {
        select_by_keywords_exec(opts, &payment_keywords_exec())
    } else if contains_exec(&lname, &chars_of("shipment")) || contains_exec(&lname, &chars_of("delivery")) {
        select_by_keywords_exec(opts, &shipment_keywords_exec())
    } else if opts.len() > 0 {
        assert(opt_views(opts@)[0] == (opts@[0].0@, opts@[0].1@));
        copy_chars(&opts[0].0)
    } else {
        Vec::new()
    }
}

fn apply_groups_exec(fields: &mut FormFields, names: &Vec<Vec<char>>, opts: &Vec<Vec<(Vec<char>, Vec<char>)>>)
    requires
        names@.len() == opts@.len(),
    ensures
        final(fields)@ == apply_groups(old(fields)@, groups_view(names@, opts@)),
{
    let ghost f0 = fields@;
    let ghost gv = groups_view(names@, opts@);
    let mut g: usize = 0;
    while g < names.len()
        invariant
            names@.len() == opts@.len(),
            gv == groups_view(names@, opts@),
            g <= names@.len(),
            fields@ == apply_groups(f0, gv.take(g as int)),
        decreases names@.len() - g,
    {
        assert(gv.take(g + 1).drop_last() =~= gv.take(g as int));
        assert(gv.take(g + 1).last() == (names@[g as int]@, opt_views(opts@[g as int]@)));
        let c = group_choice_exec(&names[g], &opts[g]);
        if c.len() > 0 {
            fields.insert(string_of(&names[g]), string_of(&c));
        }
        g = g + 1;
    }
    assert(gv.take(names@.len() as int) =~= gv);
}

fn checkbox_fields_exec(fields: &mut FormFields, s: &Vec<char>, tags: &Vec<(usize, usize)>)
    requires
        spans_ok(s@, tags@),
    ensures
        final(fields)@ == checkbox_fields_in(s@, span_ints(tags@), old(fields)@),
{
    let ghost f0 = fields@;
    let ghost sp = span_ints(tags@);
    let checkbox = chars_of("checkbox");
    let name_attr = chars_of("name");
    let one = chars_of("1");
    let mut x: usize = 0;
    while x < tags.len()
        invariant
            sp == span_ints(tags@),
            spans_ok(s@, tags@),
            x <= tags@.len(),
            checkbox@ == "checkbox"@,
            name_attr@ == "name"@,
            one@ == "1"@,
            fields@ == checkbox_fields_in(s@, sp.take(x as int), f0),
        decreases tags@.len() - x,
    {
        let (a, b) = tags[x];
        assert(sp[x as int] == (a as int, b as int));
        assert(sp.take(x + 1).drop_last() =~= sp.take(x as int));
        let t = sub_chars(s, a, b);
        if has_type_exec(&t, &checkbox) {
            match tag_attr_exec(&t, &name_attr) {
                Some(n) => {
                    fields.insert(string_of(&n), string_of(&one));
                },
                None => {},
            }
        }
        x = x + 1;
    }
    assert(sp.take(tags@.len() as int) =~= sp);
}

fn has_radio_input_exec(s: &Vec<char>, tags: &Vec<(usize, usize)>) -> (r: bool)
    requires
        span_ints(tags@) == input_tags(s@),
        spans_ok(s@, tags@),
    ensures
        r == has_radio_input(s@),
{
    let ghost sp = input_tags(s@);
    let radio = chars_of("radio");
    let mut x: usize = 0;
    while x < tags.len()
        invariant
            span_ints(tags@) == sp,
            sp == input_tags(s@),
            spans_ok(s@, tags@),
            x <= tags@.len(),
            radio@ == "radio"@,
            forall|j: int| 0 <= j < x ==> !has_type(tag_text(s@, #[trigger] sp[j]), "radio"@),
        decreases tags@.len() - x,
    {
        let (a, b) = tags[x];
        assert(sp[x as int] == (a as int, b as int));
        let t = sub_chars(s, a, b);
        if has_type_exec(&t, &radio) {
            return true;
        }
        x = x + 1;
    }
    false
}

fn radio_labels_cut_ok_exec(s: &Vec<char>, tags: &Vec<(usize, usize)>) -> (r: bool)
    requires
        span_ints(tags@) == input_tags(s@),
        spans_ok(s@, tags@),
    ensures
        r == radio_labels_cut_ok(s@),
{
    let ghost sp = input_tags(s@);
    let radio = chars_of("radio");
    let name_attr = chars_of("name");
    let value_attr = chars_of("value");
    let mut x: usize = 0;
    while x < tags.len()
        invariant
            span_ints(tags@) == sp,
            sp == input_tags(s@),
            spans_ok(s@, tags@),
            x <= tags@.len(),
            radio@ == "radio"@,
            name_attr@ == "name"@,
            value_attr@ == "value"@,
            forall|j: int| 0 <= j < x && (#[trigger] radio_parts(s@, sp[j])) is Some ==> window_ok(s@, sp[j].1, 300),
        decreases tags@.len() - x,
    {
        let (a, b) = tags[x];
        assert(sp[x as int] == (a as int, b as int));
        let t = sub_chars(s, a, b);
        if has_type_exec(&t, &radio) {
            match (tag_attr_exec(&t, &name_attr), tag_attr_exec(&t, &value_attr)) {
                (Some(_), Some(_)) => {
                    assert(radio_parts(s@, sp[x as int]) is Some);
                    let (_k, ok) = window_exec(s, b, 300);
                    if !ok {
                        return false;
                    }
                },
                _ => {},
            }
        }
        x = x + 1;
    }
    true
}

/// Fields of the checkout form.
#[derive(Clone, Debug)]
pub struct OrderFormInfo {
    pub fields: FormFields,
}

/// Whether `parse_order_form` can read `html`: false exactly on the pages
/// where a radio label window would be cut inside a multi-byte character.
pub fn order_form_readable(html: &str) -> (r: bool)
    ensures
        r == order_form_input_ok(html@),
{
    let s = chars_of(html);
    let lower = to_lowercase(&s);
    if processing_text_exec(&s, &lower) {
        return true;
    }
    let tags = named_tag_spans(&s, &chars_of("input"));
    if input_value_exec(&s, &tags, &chars_of("_csrf")).is_none() {
        return true;
    }
    radio_labels_cut_ok_exec(&s, &tags)
}

/// Reads the checkout form: `_csrf`, one value per radio group (payment by
/// ATM / virtual account / transfer / ibon, shipment by ibon / convenience
/// store), and "1" for every named checkbox.
pub fn parse_order_form(html: &str) -> (r: Option<OrderFormInfo>)
    requires
        order_form_input_ok(html@),
    ensures
        match r {
            Some(info) => order_form(html@) == Some(info.fields@),
            None => order_form(html@) is None,
        },
{
    let s = chars_of(html);
    let lower = to_lowercase(&s);
    if processing_text_exec(&s, &lower) {
        return None;
    }
    let tags = named_tag_spans(&s, &chars_of("input"));
    let csrf = match input_value_exec(&s, &tags, &chars_of("_csrf")) {
        Some(v) => v,
        None => {
            return None;
        },
    };
    let mut fields = FormFields::new();
    fields.insert(string_of(&chars_of("_csrf")), string_of(&csrf));
    let (names, opts) = radio_groups_exec(&s, &tags);
    if names.len() == 0 {
        assert(groups_view(names@, opts@).len() == 0);
        if has_radio_input_exec(&s, &tags) {
            return None;
        }
        if checkout_text_exec(&s, &lower) {
            checkbox_fields_exec(&mut fields, &s, &tags);
            return Some(OrderFormInfo { fields });
        }
        return None;
    }
    apply_groups_exec(&mut fields, &names, &opts);
    checkbox_fields_exec(&mut fields, &s, &tags);
    Some(OrderFormInfo { fields })
}


// ---------------------------------------------------------------------------
// Page-state detectors and URL helpers.
/// `detect_coming_soon`.
pub open spec fn coming_soon(s: Seq<char>) -> bool {
    contains(unicode_lowercase(s), "coming soon"@) || contains(s, "即將開賣"@) || contains(s, "尚未開賣"@)
        || contains(s, "即将开卖"@) || contains(s, "まもなく販売開始"@)
}

/// `detect_login_required`: the URL is a login page, or the page holds a
/// login form.
pub open spec fn login_required(html: Seq<char>, url: Seq<char>) -> bool {
    let lower_url = unicode_lowercase(url);
    if contains(lower_url, "login"@) || contains(lower_url, "facebook.com"@) || contains(lower_url, "accounts.google.com"@) {
        true
    } else {
        let lower = unicode_lowercase(html);
        (contains(lower, "login"@) || contains(lower, "sign in"@) || contains(html, "登入"@))
            && contains(lower, "<form"@) && contains(lower, "login"@)
    }
}

/// `is_sold_out_text`.
pub open spec fn sold_out_text(t: Seq<char>) -> bool {
    let lower = unicode_lowercase(t);
    contains(t, "選購一空"@) || contains(t, "已售完"@) || contains(lower, "sold out"@) || contains(lower, "no tickets"@)
        || contains(t, "空席なし"@) || contains(t, "完売"@) || contains(t, "暫無"@)
}

/// `is_game_target_href`: an area or verify link of a game row.
pub open spec fn game_target(h: Seq<char>) -> bool {
    crate::text::starts_with(h, "/ticket/area/"@) || crate::text::starts_with(h, "https://tixcraft.com/ticket/area/"@)
        || crate::text::starts_with(h, "/activity/verify/"@) || crate::text::starts_with(h, "https://tixcraft.com/activity/verify/"@)
        || crate::text::starts_with(h, "/ticket/verify/"@) || crate::text::starts_with(h, "https://tixcraft.com/ticket/verify/"@)
}

/// `is_area_target_href`: a ticket or verify link of an area.
pub open spec fn area_target(h: Seq<char>) -> bool {
    crate::text::starts_with(h, "/ticket/ticket/"@) || crate::text::starts_with(h, "https://tixcraft.com/ticket/ticket/"@)
        || crate::text::starts_with(h, "/ticket/verify/"@) || crate::text::starts_with(h, "https://tixcraft.com/ticket/verify/"@)
        || crate::text::starts_with(h, "/activity/verify/"@) || crate::text::starts_with(h, "https://tixcraft.com/activity/verify/"@)
}

/// An absolute URL unchanged; a path on `https://tixcraft.com`.
pub open spec fn normalized_url(u: Seq<char>) -> Seq<char> {
    if crate::text::starts_with(u, "http://"@) || crate::text::starts_with(u, "https://"@) {
        u
    } else if crate::text::starts_with(u, "/"@) {
        "https://tixcraft.com"@ + u
    } else {
        "https://tixcraft.com/"@ + u
    }
}

pub fn coming_soon_chars(s: &Vec<char>) -> (r: bool)
    ensures
        r == coming_soon(s@),
{
    let lower = to_lowercase(s);
    contains_exec(&lower, &chars_of("coming soon")) || contains_exec(s, &chars_of("即將開賣"))
        || contains_exec(s, &chars_of("尚未開賣")) || contains_exec(s, &chars_of("即将开卖"))
        || contains_exec(s, &chars_of("まもなく販売開始"))
}

/// Whether the page announces that sales have not opened yet.
pub fn detect_coming_soon(html: &str) -> (r: bool)
    ensures
        r == coming_soon(html@),
{
    coming_soon_chars(&chars_of(html))
}

pub fn login_required_chars(html: &Vec<char>, url: &Vec<char>) -> (r: bool)
    ensures
        r == login_required(html@, url@),
{
    let lower_url = to_lowercase(url);
    if contains_exec(&lower_url, &chars_of("login")) || contains_exec(&lower_url, &chars_of("facebook.com"))
        || contains_exec(&lower_url, &chars_of("accounts.google.com")) {
        return true;
    }
    let lower = to_lowercase(html);
    (contains_exec(&lower, &chars_of("login")) || contains_exec(&lower, &chars_of("sign in"))
        || contains_exec(html, &chars_of("登入"))) && contains_exec(&lower, &chars_of("<form"))
        && contains_exec(&lower, &chars_of("login"))
}

/// Whether the page (or the URL it came from) asks to log in.
pub fn detect_login_required(html: &str, url: &str) -> (r: bool)
    ensures
        r == login_required(html@, url@),
{
    login_required_chars(&chars_of(html), &chars_of(url))
}

pub fn sold_out_text_exec(t: &Vec<char>) -> (r: bool)
    ensures
        r == sold_out_text(t@),
{
    let lower = to_lowercase(t);
    contains_exec(t, &chars_of("選購一空")) || contains_exec(t, &chars_of("已售完"))
        || contains_exec(&lower, &chars_of("sold out")) || contains_exec(&lower, &chars_of("no tickets"))
        || contains_exec(t, &chars_of("空席なし")) || contains_exec(t, &chars_of("完売"))
        || contains_exec(t, &chars_of("暫無"))
}

fn starts_exec(h: &Vec<char>, lit: &str) -> (r: bool)
    ensures
        r == crate::text::starts_with(h@, lit@),
{
    crate::text::starts_with_exec(h, &chars_of(lit))
}

pub fn game_target_exec(h: &Vec<char>) -> (r: bool)
    ensures
        r == game_target(h@),
{
    starts_exec(h, "/ticket/area/") || starts_exec(h, "https://tixcraft.com/ticket/area/")
        || starts_exec(h, "/activity/verify/") || starts_exec(h, "https://tixcraft.com/activity/verify/")
        || starts_exec(h, "/ticket/verify/") || starts_exec(h, "https://tixcraft.com/ticket/verify/")
}

pub fn area_target_exec(h: &Vec<char>) -> (r: bool)
    ensures
        r == area_target(h@),
{
    starts_exec(h, "/ticket/ticket/") || starts_exec(h, "https://tixcraft.com/ticket/ticket/")
        || starts_exec(h, "/ticket/verify/") || starts_exec(h, "https://tixcraft.com/ticket/verify/")
        || starts_exec(h, "/activity/verify/") || starts_exec(h, "https://tixcraft.com/activity/verify/")
}

pub fn normalized_url_exec(u: &Vec<char>) -> (r: Vec<char>)
    ensures
        r@ == normalized_url(u@),
{
    if starts_exec(u, "http://") || starts_exec(u, "https://") {
        copy_chars(u)
    } else if starts_exec(u, "/") {
        let mut r = chars_of("https://tixcraft.com");
        crate::text::append_chars(&mut r, u);
        r
    } else {
        let mut r = chars_of("https://tixcraft.com/");
        crate::text::append_chars(&mut r, u);
        r
    }
}


// ---------------------------------------------------------------------------
// Game page: `(date text, target URL)` rows.
/// `data-href=["']([^"']+)["']` at `i`: the end of the captured value.
pub open spec fn data_href_at(r: Seq<char>, i: int) -> Option<int> {
    if crate::text::matches_at(r, i, "data-href="@) && i + 10 < r.len() && crate::text::is_quote(r[i + 10]) {
        match crate::text::find_quote_from(r, i + 11) {
            Some(q) => if q > i + 11 { Some(q) } else { None },
            None => None,
        }
    } else {
        None
    }
}

pub open spec fn data_href_pred(r: Seq<char>) -> spec_fn(int) -> bool {
    |i: int| data_href_at(r, i) is Some
}

/// The first `data-href` value of a row.
pub open spec fn data_href(r: Seq<char>) -> Option<Seq<char>> {
    match first_in(0, r.len() as int, data_href_pred(r)) {
        Some(i) => Some(r.subrange(i + 11, data_href_at(r, i).unwrap())),
        None => None,
    }
}

/// The inner HTML of the `<tr>` starting at `i`.
pub open spec fn row_body(s: Seq<char>, i: int) -> Seq<char> {
    s.subrange(row_parts(s, i).unwrap().0 + 1, row_parts(s, i).unwrap().1)
}

/// One row of the game list: its text and normalised target URL, if its
/// first `data-href` is an area or verify link.
pub open spec fn game_row(s: Seq<char>, sp: (int, int)) -> Option<(Seq<char>, Seq<char>)> {
    let body = row_body(s, sp.0);
    match data_href(body) {
        Some(h) => if game_target(h) {
            Some((collapse_ws(strip_tags(body)), normalized_url(h)))
        } else {
            None
        },
        None => None,
    }
}

pub open spec fn game_rows_in(s: Seq<char>, spans: Seq<(int, int)>) -> Seq<(Seq<char>, Seq<char>)>
    decreases spans.len(),
{
    if spans.len() == 0 {
        seq![]
    } else {
        let prev = game_rows_in(s, spans.drop_last());
        match game_row(s, spans.last()) {
            Some(row) => prev.push(row),
            None => prev,
        }
    }
}

/// What `parse_game_list` returns.
pub open spec fn game_list(s: Seq<char>) -> Seq<(Seq<char>, Seq<char>)> {
    game_rows_in(s, constructs(s, Construct::Row, seq![]))
}

pub open spec fn pair_views(v: Seq<(String, String)>) -> Seq<(Seq<char>, Seq<char>)> {
    v.map_values(|x: (String, String)| (x.0@, x.1@))
}

fn data_href_at_exec(r: &Vec<char>, i: usize) -> (res: Option<usize>)
    ensures
        crate::text::opt_int(res) == data_href_at(r@, i as int),
{
    proof {
        reveal_strlit("data-href=");
    }
    if !crate::text::matches_at_exec(r, i, &chars_of("data-href=")) {
        return None;
    }
    let len = r.len();
    if !(i + 10 < len && (r[i + 10] == '"' || r[i + 10] == '\'')) {
        return None;
    }
    match crate::text::find_quote_from_exec(r, i + 11) {
        Some(q) => if q > i + 11 {
            Some(q)
        } else {
            None
        },
        None => None,
    }
}

fn data_href_exec(r: &Vec<char>) -> (res: Option<Vec<char>>)
    ensures
        match res {
            Some(h) => data_href(r@) == Some(h@),
            None => data_href(r@) is None,
        },
{
    let mut i: usize = 0;
    while i < r.len()
        invariant
            i <= r@.len(),
            forall|j: int| 0 <= j < i ==> !(#[trigger] data_href_pred(r@)(j)),
        decreases r@.len() - i,
    {
        match data_href_at_exec(r, i) {
            Some(q) => {
                proof {
                    lemma_first_in_found(0, r@.len() as int, data_href_pred(r@), i as int);
                    lemma_first_in(i + 11, r@.len() as int, crate::text::quote_pred(r@));
                }
                return Some(sub_chars(r, i + 11, q));
            },
            None => {},
        }
        i = i + 1;
    }
    proof {
        lemma_first_in_none(0, r@.len() as int, data_href_pred(r@));
    }
    None
}

/// Rows of the game (session) list: the row's text (tags removed,
/// whitespace collapsed) and its area or verify URL, made absolute.
pub fn parse_game_list(html: &str) -> (r: Vec<(String, String)>)
    ensures
        pair_views(r@) == game_list(html@),
{
    let s = chars_of(html);
    let empty: Vec<char> = Vec::new();
    let spans = construct_spans(&s, Construct::Row, &empty);
    let ghost sp = constructs(s@, Construct::Row, seq![]);
    assert(empty@ =~= Seq::<char>::empty());
    let mut out: Vec<(String, String)> = Vec::new();
    let mut x: usize = 0;
    while x < spans.len()
        invariant
            crate::html::span_ints(spans@) == sp,
            sp == constructs(s@, Construct::Row, seq![]),
            forall|y: int| 0 <= y < spans@.len() ==> (#[trigger] spans@[y]).0 < spans@[y].1 <= s@.len(),
            x <= spans@.len(),
            pair_views(out@) == game_rows_in(s@, sp.take(x as int)),
        decreases spans@.len() - x,
    {
        let (a, b) = spans[x];
        assert(sp[x as int] == (a as int, b as int));
        assert(sp.take(x + 1).drop_last() =~= sp.take(x as int));
        proof {
            crate::html::lemma_scan_bounds(0, s@.len() as int, crate::html::construct(s@, Construct::Row, seq![]));
            crate::html::lemma_scan_members(0, s@.len() as int, crate::html::construct(s@, Construct::Row, seq![]), x as int);
            crate::html::lemma_construct_at(s@, Construct::Row, seq![], a as int);
        }
        let parts = crate::html::row_parts_exec(&s, a);
        match parts {
            Some((k, e)) => {
                let body = sub_chars(&s, k + 1, e);
                match data_href_exec(&body) {
                    Some(h) => {
                        if game_target_exec(&h) {
                            let text = collapse_ws_exec(&strip_tags_exec(&body));
                            let url = normalized_url_exec(&h);
                            let ghost before = out@;
                            out.push((string_of(&text), string_of(&url)));
                            proof {
                                assert(pair_views(out@) =~= pair_views(before).push((text@, url@)));
                            }
                        }
                    },
                    None => {},
                }
            },
            None => {},
        }
        x = x + 1;
    }
    assert(sp.take(spans@.len() as int) =~= sp);
    out
}


// ---------------------------------------------------------------------------
// Verify page.
/// The `<form>` tags.
pub open spec fn form_tags(s: Seq<char>) -> Seq<(int, int)> {
    named_tags(s, "form"@)
}

pub open spec fn verify_action_like(a: Seq<char>) -> bool {
    contains(a, "verify"@) || contains(a, "check-code"@)
}

/// The form action chosen from `tags` onward, with `acc` chosen so far: the
/// action of the form with id `form-ticket-verify` (ending the search), else
/// the first action that mentions `verify` or `check-code`.
pub open spec fn form_action_from(s: Seq<char>, tags: Seq<(int, int)>, acc: Option<Seq<char>>) -> Option<Seq<char>>
    decreases tags.len(),
{
    if tags.len() == 0 {
        acc
    } else {
        let t = tag_text(s, tags[0]);
        let action = tag_attr(t, "action"@);
        if tag_attr(t, "id"@) == Some("form-ticket-verify"@) {
            action
        } else {
            let acc2 = if acc is None && action is Some && verify_action_like(action->0) {
                action
            } else {
                acc
            };
            form_action_from(s, tags.drop_first(), acc2)
        }
    }
}

/// `【(.+?)】` at `i`: the index of the closing bracket.
pub open spec fn answer_close_pred(z: Seq<char>) -> spec_fn(int) -> bool {
    |x: int| z[x] == '】' || z[x] == '\n'
}

pub open spec fn answer_at(z: Seq<char>, i: int) -> Option<int> {
    if 0 <= i && i + 1 < z.len() && z[i] == '【' && z[i + 1] != '\n' {
        match first_in(i + 2, z.len() as int, answer_close_pred(z)) {
            Some(k) => if z[k] == '】' { Some(k) } else { None },
            None => None,
        }
    } else {
        None
    }
}

pub open spec fn answer_pred(z: Seq<char>) -> spec_fn(int) -> bool {
    |i: int| answer_at(z, i) is Some
}

/// The trimmed text of the first `【...】` (no line break inside).
pub open spec fn answer_in(z: Seq<char>) -> Option<Seq<char>> {
    match first_in(0, z.len() as int, answer_pred(z)) {
        Some(i) => Some(crate::text::trim(z.subrange(i + 1, answer_at(z, i).unwrap()))),
        None => None,
    }
}

/// The 800-byte zone after the first `zone-verify`, with 「」 read as 【】.
pub open spec fn verify_zone(s: Seq<char>, z: int) -> Seq<char> {
    let w = s.subrange(z, window_end(s, z, 800));
    crate::text::replace_char(crate::text::replace_char(w, '「', '【'), '」', '】')
}

/// What `parse_verify_page` returns: `(answer, csrf, form_action)`.
pub open spec fn verify_page(s: Seq<char>) -> (Option<Seq<char>>, Option<Seq<char>>, Option<Seq<char>>) {
    let answer = match find_from(s, "zone-verify"@, 0) {
        Some(z) => answer_in(verify_zone(s, z)),
        None => None,
    };
    (answer, input_value(s, "_csrf"@), form_action_from(s, form_tags(s), None))
}

/// The inputs on which `parse_verify_page` returns (on the others, the
/// 800-byte zone would be cut inside a multi-byte character and slicing it
/// panics).
pub open spec fn verify_page_input_ok(s: Seq<char>) -> bool {
    find_from(s, "zone-verify"@, 0) matches Some(z) ==> window_ok(s, z, 800)
}

pub open spec fn opt_view(o: Option<String>) -> Option<Seq<char>> {
    match o {
        Some(v) => Some(v@),
        None => None,
    }
}

/// What the verify page holds.
#[derive(Clone, Debug)]
pub struct VerifyInfo {
    pub answer: Option<String>,
    pub csrf: Option<String>,
    pub form_action: Option<String>,
}

fn opt_string(o: Option<Vec<char>>) -> (r: Option<String>)
    ensures
        opt_view(r) == match o {
            Some(v) => Some(v@),
            None => None::<Seq<char>>,
        },
{
    match o {
        Some(v) => Some(string_of(&v)),
        None => None,
    }
}

fn answer_at_exec(z: &Vec<char>, i: usize) -> (r: Option<usize>)
    ensures
        crate::text::opt_int(r) == answer_at(z@, i as int),
{
    let len = z.len();
    if !(i < len && i + 1 < len && z[i] == '【' && z[i + 1] != '\n') {
        return None;
    }
    let mut k = i + 2;
    while k < len
        invariant
            len == z@.len(),
            i + 1 < len,
            z@[i as int] == '【',
            z@[i + 1] != '\n',
            i + 2 <= k,
            forall|j: int| i + 2 <= j < k ==> !(#[trigger] answer_close_pred(z@)(j)),
        decreases len - k,
    {
        if z[k] == '】' || z[k] == '\n' {
            proof {
                lemma_first_in_found(i + 2, len as int, answer_close_pred(z@), k as int);
            }
            if z[k] == '】' {
                return Some(k);
            }
            return None;
        }
        k = k + 1;
    }
    proof {
        lemma_first_in_none(i + 2, len as int, answer_close_pred(z@));
    }
    None
}

fn answer_in_exec(z: &Vec<char>) -> (r: Option<Vec<char>>)
    ensures
        match r {
            Some(a) => answer_in(z@) == Some(a@),
            None => answer_in(z@) is None,
        },
{
    let mut i: usize = 0;
    while i < z.len()
        invariant
            i <= z@.len(),
            forall|j: int| 0 <= j < i ==> !(#[trigger] answer_pred(z@)(j)),
        decreases z@.len() - i,
    {
        match answer_at_exec(z, i) {
            Some(k) => {
                proof {
                    lemma_first_in_found(0, z@.len() as int, answer_pred(z@), i as int);
                    lemma_first_in(i + 2, z@.len() as int, answer_close_pred(z@));
                }
                let inner = sub_chars(z, i + 1, k);
                return Some(crate::text::trim_exec(&inner));
            },
            None => {},
        }
        i = i + 1;
    }
    proof {
        lemma_first_in_none(0, z@.len() as int, answer_pred(z@));
    }
    None
}

fn form_action_exec(s: &Vec<char>, tags: &Vec<(usize, usize)>) -> (r: Option<Vec<char>>)
    requires
        spans_ok(s@, tags@),
    ensures
        match r {
            Some(a) => form_action_from(s@, span_ints(tags@), None) == Some(a@),
            None => form_action_from(s@, span_ints(tags@), None) is None,
        },
{
    let ghost sp = span_ints(tags@);
    let action_attr = chars_of("action");
    let id_attr = chars_of("id");
    let wanted_id = chars_of("form-ticket-verify");
    let verify = chars_of("verify");
    let check_code = chars_of("check-code");
    let mut acc: Option<Vec<char>> = None;
    let mut x: usize = 0;
    assert(sp.subrange(0, sp.len() as int) =~= sp);
    while x < tags.len()
        invariant
            sp == span_ints(tags@),
            spans_ok(s@, tags@),
            x <= tags@.len(),
            action_attr@ == "action"@,
            id_attr@ == "id"@,
            wanted_id@ == "form-ticket-verify"@,
            verify@ == "verify"@,
            check_code@ == "check-code"@,
            form_action_from(s@, sp, None) == form_action_from(s@, sp.subrange(x as int, sp.len() as int), match acc {
                Some(a) => Some(a@),
                None => None::<Seq<char>>,
            }),
        decreases tags@.len() - x,
    {
        let ghost rest = sp.subrange(x as int, sp.len() as int);
        let (a, b) = tags[x];
        assert(rest[0] == (a as int, b as int));
        assert(rest.drop_first() =~= sp.subrange(x + 1, sp.len() as int));
        let t = sub_chars(s, a, b);
        let action = tag_attr_exec(&t, &action_attr);
        let id = tag_attr_exec(&t, &id_attr);
        let is_verify_form = match &id {
            Some(v) => crate::text::seq_eq_exec(v, &wanted_id),
            None => false,
        };
        if is_verify_form {
            return action;
        }
        if acc.is_none() {
            match &action {
                Some(v) => {
                    if contains_exec(v, &verify) || contains_exec(v, &check_code) {
                        acc = action;
                    }
                },
                None => {},
            }
        }
        x = x + 1;
    }
    acc
}

/// Reads the verify page: the answer shown as `【...】` (or `「...」`) in the
/// 800 bytes after `zone-verify`, the `_csrf` input, and the form action.
pub fn parse_verify_page(html: &str) -> (r: VerifyInfo)
    requires
        verify_page_input_ok(html@),
    ensures
        (opt_view(r.answer), opt_view(r.csrf), opt_view(r.form_action)) == verify_page(html@),
{
    let s = chars_of(html);
    let input_spans = named_tag_spans(&s, &chars_of("input"));
    let csrf = input_value_exec(&s, &input_spans, &chars_of("_csrf"));
    let form_spans = named_tag_spans(&s, &chars_of("form"));
    let form_action = form_action_exec(&s, &form_spans);
    let zone_key = chars_of("zone-verify");
    let answer = match find_from_exec(&s, &zone_key, 0) {
        Some(z) => {
            proof {
                lemma_first_in(0, s@.len() - zone_key@.len() + 1, crate::text::matches_pred(s@, zone_key@));
                lemma_window_end(s@, z as int, 800);
            }
            let (k, _ok) = window_exec(&s, z, 800);
            let w = sub_chars(&s, z, k);
            let zone = crate::text::replace_char_exec(&crate::text::replace_char_exec(&w, '「', '【'), '」', '】');
            answer_in_exec(&zone)
        },
        None => None,
    };
    VerifyInfo { answer: opt_string(answer), csrf: opt_string(csrf), form_action: opt_string(form_action) }
}

/// Whether `parse_verify_page` can read `html`: false exactly when the
/// answer zone would be cut inside a multi-byte character.
pub fn verify_page_readable(html: &str) -> (r: bool)
    ensures
        r == verify_page_input_ok(html@),
{
    let s = chars_of(html);
    let zone_key = chars_of("zone-verify");
    match find_from_exec(&s, &zone_key, 0) {
        Some(z) => {
            proof {
                lemma_first_in(0, s@.len() - zone_key@.len() + 1, crate::text::matches_pred(s@, zone_key@));
            }
            let (_k, ok) = window_exec(&s, z, 800);
            ok
        },
        None => true,
    }
}


// ---------------------------------------------------------------------------
// Area page.
/// `(?is)areaUrlList\s*=\s*\{(.*?)\};` at `i`: the captured block.
pub open spec fn url_block_at(s: Seq<char>, i: int) -> Option<(int, int)> {
    if crate::text::ci_matches_at(s, i, "areaurllist"@) {
        let j = crate::text::skip_ws_from(s, i + 11);
        if j < s.len() && s[j] == '=' {
            let k = crate::text::skip_ws_from(s, j + 1);
            if k < s.len() && s[k] == '{' {
                match find_from(s, "};"@, k + 1) {
                    Some(e) => Some((k + 1, e)),
                    None => None,
                }
            } else {
                None
            }
        } else {
            None
        }
    } else {
        None
    }
}

pub open spec fn url_block_pred(s: Seq<char>) -> spec_fn(int) -> bool {
    |i: int| url_block_at(s, i) is Some
}

/// The first `areaUrlList = {...};` block.
pub open spec fn url_block(s: Seq<char>) -> Option<Seq<char>> {
    match first_in(0, s.len() as int, url_block_pred(s)) {
        Some(i) => Some(s.subrange(url_block_at(s, i).unwrap().0, url_block_at(s, i).unwrap().1)),
        None => None,
    }
}

/// The `key: 'url'` pairs of a block, in order.
pub open spec fn url_pairs_in(b: Seq<char>, spans: Seq<(int, int)>) -> Seq<(Seq<char>, Seq<char>)>
    decreases spans.len(),
{
    if spans.len() == 0 {
        seq![]
    } else {
        let prev = url_pairs_in(b, spans.drop_last());
        let x = url_pair_parts(b, spans.last().0).unwrap();
        let key = b.subrange(x.0, x.1);
        let value = b.subrange(x.2, x.3);
        if key.len() > 0 && value.len() > 0 {
            prev.push((key, value))
        } else {
            prev
        }
    }
}

/// Insert the pairs in order into a map (a later key replaces an earlier one).
pub open spec fn seq_pairs_map(v: Seq<(Seq<char>, Seq<char>)>) -> Map<Seq<char>, Seq<char>>
    decreases v.len(),
{
    if v.len() == 0 {
        Map::empty()
    } else {
        seq_pairs_map(v.drop_last()).insert(v.last().0, v.last().1)
    }
}

/// `parse_area_url_list`: area id to ticket URL.
pub open spec fn area_url_map(s: Seq<char>) -> Map<Seq<char>, Seq<char>> {
    match url_block(s) {
        Some(b) => seq_pairs_map(url_pairs_in(b, constructs(b, Construct::UrlPair, seq![]))),
        None => Map::empty(),
    }
}

/// `lit["']([^"']+)` (`nonempty`) or `lit["']([^"']*)` at `i`: where the
/// capture ends (a quote or the end of the text).
pub open spec fn lit_capture_at(a: Seq<char>, lit: Seq<char>, nonempty: bool, i: int) -> Option<int> {
    if crate::text::matches_at(a, i, lit) && i + lit.len() < a.len() && crate::text::is_quote(a[i + lit.len()]) {
        let v1 = match crate::text::find_quote_from(a, i + lit.len() + 1) {
            Some(q) => q,
            None => a.len() as int,
        };
        if !nonempty || v1 > i + lit.len() + 1 {
            Some(v1)
        } else {
            None
        }
    } else {
        None
    }
}

pub open spec fn lit_capture_pred(a: Seq<char>, lit: Seq<char>, nonempty: bool) -> spec_fn(int) -> bool {
    |i: int| lit_capture_at(a, lit, nonempty, i) is Some
}

/// The capture of the first match.
pub open spec fn lit_capture(a: Seq<char>, lit: Seq<char>, nonempty: bool) -> Option<Seq<char>> {
    match first_in(0, a.len() as int, lit_capture_pred(a, lit, nonempty)) {
        Some(i) => Some(a.subrange(i + lit.len() + 1, lit_capture_at(a, lit, nonempty, i).unwrap())),
        None => None,
    }
}

pub open spec fn or_empty(o: Option<Seq<char>>) -> Seq<char> {
    match o {
        Some(v) => v,
        None => seq![],
    }
}

/// `(available (url, text), sold out texts, total, area URLs not yet used)`.
pub type AreaAcc = (Seq<(Seq<char>, Seq<char>)>, Seq<Seq<char>>, int, Map<Seq<char>, Seq<char>>);

/// One anchor of the area page.
pub open spec fn area_step(s: Seq<char>, acc: AreaAcc, sp: (int, int)) -> AreaAcc {
    let x = anchor_parts(s, sp.0).unwrap();
    let attrs = s.subrange(sp.0 + 2, x.0);
    let body = s.subrange(x.0 + 1, x.1);
    let text = collapse_ws(strip_tags(body));
    if text.len() == 0 {
        acc
    } else {
        let id = or_empty(lit_capture(attrs, "id="@, true));
        let href0 = or_empty(lit_capture(attrs, "href="@, false));
        let urls = acc.3;
        let href = if href0.len() == 0 && id.len() > 0 {
            if urls.contains_key(id) { urls[id] } else { seq![] }
        } else {
            href0
        };
        let urls2 = if href0.len() == 0 && id.len() > 0 { urls.remove(id) } else { urls };
        if href.len() == 0 && id.len() == 0 {
            (acc.0, acc.1, acc.2, urls2)
        } else if href.len() > 0 && !area_target(href) {
            (acc.0, acc.1, acc.2, urls2)
        } else {
            let class_text = match lit_capture(attrs, "class="@, false) {
                Some(c) => unicode_lowercase(c),
                None => seq![],
            };
            let disabled = contains(class_text, "disabled"@) || sold_out_text(text)
                || crate::text::trim(href).len() == 0;
            if disabled {
                (acc.0, acc.1.push(text), acc.2 + 1, urls2)
            } else {
                (acc.0.push((normalized_url(href), text)), acc.1, acc.2 + 1, urls2)
            }
        }
    }
}

pub open spec fn area_fold(s: Seq<char>, spans: Seq<(int, int)>) -> AreaAcc
    decreases spans.len(),
{
    if spans.len() == 0 {
        (seq![], seq![], 0, area_url_map(s))
    } else {
        area_step(s, area_fold(s, spans.drop_last()), spans.last())
    }
}

/// What `parse_area_list` returns: `(available, sold_out, total)`.
pub open spec fn area_list(s: Seq<char>) -> (Seq<(Seq<char>, Seq<char>)>, Seq<Seq<char>>, int) {
    let acc = area_fold(s, constructs(s, Construct::Anchor, seq![]));
    (acc.0, acc.1, acc.2)
}

/// A selectable area: its ticket URL and its text.
#[derive(Debug)]
pub struct AreaEntry {
    pub url: String,
    pub text: String,
}

impl Clone for AreaEntry {
    fn clone(&self) -> (r: Self)
        ensures
            r == *self,
    {
        AreaEntry { url: self.url.clone(), text: self.text.clone() }
    }
}

/// The areas of an area page.
#[derive(Clone, Debug)]
pub struct AreaInfo {
    pub available: Vec<AreaEntry>,
    pub sold_out: Vec<String>,
    pub total: usize,
}

pub open spec fn area_entry_views(v: Seq<AreaEntry>) -> Seq<(Seq<char>, Seq<char>)> {
    v.map_values(|e: AreaEntry| (e.url@, e.text@))
}

// Character-vector maps (a later key replaces an earlier one).
pub open spec fn cpairs_map(v: Seq<(Vec<char>, Vec<char>)>) -> Map<Seq<char>, Seq<char>>
    decreases v.len(),
{
    if v.len() == 0 {
        Map::empty()
    } else {
        cpairs_map(v.drop_last()).insert(v.last().0@, v.last().1@)
    }
}

proof fn lemma_cpairs_map_last(s: Seq<(Vec<char>, Vec<char>)>, k: Seq<char>, i: int)
    requires
        0 <= i < s.len(),
        s[i].0@ == k,
        forall|j: int| i < j < s.len() ==> (#[trigger] s[j]).0@ != k,
    ensures
        cpairs_map(s).contains_key(k),
        cpairs_map(s)[k] == s[i].1@,
    decreases s.len(),
{
    if i < s.len() - 1 {
        lemma_cpairs_map_last(s.drop_last(), k, i);
    }
}

proof fn lemma_cpairs_map_absent(s: Seq<(Vec<char>, Vec<char>)>, k: Seq<char>)
    requires
        forall|j: int| 0 <= j < s.len() ==> (#[trigger] s[j]).0@ != k,
    ensures
        !cpairs_map(s).contains_key(k),
    decreases s.len(),
{
    if s.len() > 0 {
        lemma_cpairs_map_absent(s.drop_last(), k);
    }
}

fn cmap_get(v: &Vec<(Vec<char>, Vec<char>)>, key: &Vec<char>) -> (r: Option<Vec<char>>)
    ensures
        match r {
            Some(x) => cpairs_map(v@).contains_key(key@) && cpairs_map(v@)[key@] == x@,
            None => !cpairs_map(v@).contains_key(key@),
        },
{
    let mut i = v.len();
    while i > 0
        invariant
            i <= v@.len(),
            forall|j: int| i <= j < v@.len() ==> (#[trigger] v@[j]).0@ != key@,
        decreases i,
    {
        if crate::text::seq_eq_exec(&v[i - 1].0, key) {
            proof {
                lemma_cpairs_map_last(v@, key@, i - 1);
            }
            return Some(copy_chars(&v[i - 1].1));
        }
        i = i - 1;
    }
    proof {
        lemma_cpairs_map_absent(v@, key@);
    }
    None
}

fn cmap_remove(v: &Vec<(Vec<char>, Vec<char>)>, key: &Vec<char>) -> (r: Vec<(Vec<char>, Vec<char>)>)
    ensures
        cpairs_map(r@) == cpairs_map(v@).remove(key@),
{
    let mut r: Vec<(Vec<char>, Vec<char>)> = Vec::new();
    let mut i: usize = 0;
    assert(cpairs_map(r@) =~= cpairs_map(v@.take(0)).remove(key@));
    while i < v.len()
        invariant
            i <= v@.len(),
            cpairs_map(r@) == cpairs_map(v@.take(i as int)).remove(key@),
        decreases v@.len() - i,
    {
        assert(v@.take(i + 1).drop_last() =~= v@.take(i as int));
        let ghost before = r@;
        if !crate::text::seq_eq_exec(&v[i].0, key) {
            r.push((copy_chars(&v[i].0), copy_chars(&v[i].1)));
            assert(r@.drop_last() =~= before);
        }
        i = i + 1;
        assert(cpairs_map(r@) =~= cpairs_map(v@.take(i as int)).remove(key@));
    }
    assert(v@.take(v@.len() as int) =~= v@);
    r
}

fn url_block_at_exec(s: &Vec<char>, i: usize) -> (r: Option<(usize, usize)>)
    ensures
        match r {
            Some(x) => url_block_at(s@, i as int) == Some((x.0 as int, x.1 as int)),
            None => url_block_at(s@, i as int) is None,
        },
{
    proof {
        reveal_strlit("areaurllist");
        reveal_strlit("};");
    }
    if !crate::text::ci_matches_at_exec(s, i, &chars_of("areaurllist")) {
        return None;
    }
    let len = s.len();
    let j = crate::text::skip_ws_exec(s, i + 11);
    proof {
        crate::html::lemma_skip_ws_from(s@, i + 11);
    }
    if !(j < len && s[j] == '=') {
        return None;
    }
    let k = crate::text::skip_ws_exec(s, j + 1);
    proof {
        crate::html::lemma_skip_ws_from(s@, j + 1);
    }
    if !(k < len && s[k] == '{') {
        return None;
    }
    match find_from_exec(s, &chars_of("};"), k + 1) {
        Some(e) => Some((k + 1, e)),
        None => None,
    }
}

fn url_block_exec(s: &Vec<char>) -> (r: Option<Vec<char>>)
    ensures
        match r {
            Some(b) => url_block(s@) == Some(b@),
            None => url_block(s@) is None,
        },
{
    let mut i: usize = 0;
    while i < s.len()
        invariant
            i <= s@.len(),
            forall|j: int| 0 <= j < i ==> !(#[trigger] url_block_pred(s@)(j)),
        decreases s@.len() - i,
    {
        match url_block_at_exec(s, i) {
            Some((a, b)) => {
                proof {
                    lemma_first_in_found(0, s@.len() as int, url_block_pred(s@), i as int);
                    reveal_strlit("};");
                    lemma_first_in(a as int, s@.len() - 2 + 1, crate::text::matches_pred(s@, "};"@));
                }
                return Some(sub_chars(s, a, b));
            },
            None => {},
        }
        i = i + 1;
    }
    proof {
        lemma_first_in_none(0, s@.len() as int, url_block_pred(s@));
    }
    None
}

fn area_url_map_exec(s: &Vec<char>) -> (r: Vec<(Vec<char>, Vec<char>)>)
    ensures
        cpairs_map(r@) == area_url_map(s@),
{
    let mut r: Vec<(Vec<char>, Vec<char>)> = Vec::new();
    let block = match url_block_exec(s) {
        Some(b) => b,
        None => {
            assert(cpairs_map(r@) =~= Map::<Seq<char>, Seq<char>>::empty());
            return r;
        },
    };
    let empty: Vec<char> = Vec::new();
    let spans = construct_spans(&block, Construct::UrlPair, &empty);
    assert(empty@ =~= Seq::<char>::empty());
    let ghost sp = constructs(block@, Construct::UrlPair, seq![]);
    let mut x: usize = 0;
    while x < spans.len()
        invariant
            crate::html::span_ints(spans@) == sp,
            sp == constructs(block@, Construct::UrlPair, seq![]),
            x <= spans@.len(),
            cpairs_map(r@) == seq_pairs_map(url_pairs_in(block@, sp.take(x as int))),
        decreases spans@.len() - x,
    {
        let (a, _b) = spans[x];
        assert(sp[x as int].0 == a as int);
        assert(sp.take(x + 1).drop_last() =~= sp.take(x as int));
        proof {
            crate::html::lemma_scan_members(0, block@.len() as int, crate::html::construct(block@, Construct::UrlPair, seq![]), x as int);
            crate::html::lemma_construct_at(block@, Construct::UrlPair, seq![], a as int);
        }
        match crate::html::url_pair_parts_exec(&block, a) {
            Some(p) => {
                let key = sub_chars(&block, p.0, p.1);
                let value = sub_chars(&block, p.2, p.3);
                if key.len() > 0 && value.len() > 0 {
                    let ghost before = r@;
                    r.push((key, value));
                    proof {
                        assert(r@.drop_last() =~= before);
                        let pv = url_pairs_in(block@, sp.take(x as int));
                        assert(pv.push((key@, value@)).drop_last() =~= pv);
                        assert(url_pairs_in(block@, sp.take(x + 1)) == pv.push((key@, value@)));
                    }
                }
            },
            None => {},
        }
        x = x + 1;
    }
    assert(sp.take(spans@.len() as int) =~= sp);
    r
}

fn lit_capture_at_exec(a: &Vec<char>, lit: &Vec<char>, nonempty: bool, i: usize) -> (r: Option<usize>)
    ensures
        crate::text::opt_int(r) == lit_capture_at(a@, lit@, nonempty, i as int),
{
    if !crate::text::matches_at_exec(a, i, lit) {
        return None;
    }
    let len = a.len();
    let l = lit.len();
    if !(i + l < len && (a[i + l] == '"' || a[i + l] == '\'')) {
        return None;
    }
    let v1 = match crate::text::find_quote_from_exec(a, i + l + 1) {
        Some(q) => q,
        None => len,
    };
    if !nonempty || v1 > i + l + 1 {
        Some(v1)
    } else {
        None
    }
}

fn lit_capture_exec(a: &Vec<char>, lit: &Vec<char>, nonempty: bool) -> (r: Option<Vec<char>>)
    ensures
        match r {
            Some(c) => lit_capture(a@, lit@, nonempty) == Some(c@),
            None => lit_capture(a@, lit@, nonempty) is None,
        },
{
    let mut i: usize = 0;
    while i < a.len()
        invariant
            i <= a@.len(),
            forall|j: int| 0 <= j < i ==> !(#[trigger] lit_capture_pred(a@, lit@, nonempty)(j)),
        decreases a@.len() - i,
    {
        match lit_capture_at_exec(a, lit, nonempty, i) {
            Some(v1) => {
                proof {
                    lemma_first_in_found(0, a@.len() as int, lit_capture_pred(a@, lit@, nonempty), i as int);
                    lemma_first_in(i + lit@.len() + 1, a@.len() as int, crate::text::quote_pred(a@));
                }
                return Some(sub_chars(a, i + lit.len() + 1, v1));
            },
            None => {},
        }
        i = i + 1;
    }
    proof {
        lemma_first_in_none(0, a@.len() as int, lit_capture_pred(a@, lit@, nonempty));
    }
    None
}

fn or_empty_exec(o: Option<Vec<char>>) -> (r: Vec<char>)
    ensures
        r@ == or_empty(match o {
            Some(v) => Some(v@),
            None => None::<Seq<char>>,
        }),
{
    match o {
        Some(v) => v,
        None => Vec::new(),
    }
}

/// Reads the area page: each link with text and an area target (its own
/// `href`, or the `areaUrlList` entry for its `id`) counts; disabled, sold-out
/// or URL-less ones are listed as sold out, the others as available.
pub fn parse_area_list(html: &str) -> (r: AreaInfo)
    ensures
        (area_entry_views(r.available@), string_views_of(r.sold_out@), r.total as int) == area_list(html@),
{
    let s = chars_of(html);
    let mut urls = area_url_map_exec(&s);
    let empty: Vec<char> = Vec::new();
    let spans = construct_spans(&s, Construct::Anchor, &empty);
    assert(empty@ =~= Seq::<char>::empty());
    let ghost sp = constructs(s@, Construct::Anchor, seq![]);
    let id_lit = chars_of("id=");
    let href_lit = chars_of("href=");
    let class_lit = chars_of("class=");
    let disabled_lit = chars_of("disabled");
    let mut available: Vec<AreaEntry> = Vec::new();
    let mut sold_out: Vec<String> = Vec::new();
    let mut total: usize = 0;
    let mut x: usize = 0;
    while x < spans.len()
        invariant
            crate::html::span_ints(spans@) == sp,
            sp == constructs(s@, Construct::Anchor, seq![]),
            x <= spans@.len(),
            total <= x,
            id_lit@ == "id="@,
            href_lit@ == "href="@,
            class_lit@ == "class="@,
            disabled_lit@ == "disabled"@,
            area_fold(s@, sp.take(x as int)) == (area_entry_views(available@), string_views_of(sold_out@), total as int, cpairs_map(urls@)),
        decreases spans@.len() - x,
    {
        let (st, _en) = spans[x];
        assert(sp[x as int].0 == st as int);
        assert(sp.take(x + 1).drop_last() =~= sp.take(x as int));
        assert(sp.take(x + 1).last() == sp[x as int]);
        proof {
            crate::html::lemma_scan_members(0, s@.len() as int, crate::html::construct(s@, Construct::Anchor, seq![]), x as int);
            crate::html::lemma_construct_at(s@, Construct::Anchor, seq![], st as int);
        }
        let (k, e) = match crate::html::anchor_parts_exec(&s, st) {
            Some(p) => p,
            None => {
                assert(false);
                (0, 0)
            },
        };
        let attrs = sub_chars(&s, st + 2, k);
        let body = sub_chars(&s, k + 1, e);
        let text = collapse_ws_exec(&strip_tags_exec(&body));
        if text.len() > 0 {
            let id = or_empty_exec(lit_capture_exec(&attrs, &id_lit, true));
            let href0 = or_empty_exec(lit_capture_exec(&attrs, &href_lit, false));
            let href = if href0.len() == 0 && id.len() > 0 {
                let h = or_empty_exec(cmap_get(&urls, &id));
                urls = cmap_remove(&urls, &id);
                h
            } else {
                href0
            };
            if href.len() == 0 && id.len() == 0 {
            } else if href.len() > 0 && !area_target_exec(&href) {
            } else {
                total = total + 1;
                let class_text = match lit_capture_exec(&attrs, &class_lit, false) {
                    Some(c) => to_lowercase(&c),
                    None => Vec::new(),
                };
                let disabled = contains_exec(&class_text, &disabled_lit) || sold_out_text_exec(&text)
                    || crate::text::is_blank(&href);
                if disabled {
                    let ghost before = sold_out@;
                    sold_out.push(string_of(&text));
                    proof {
                        assert(string_views_of(sold_out@) =~= string_views_of(before).push(text@));
                    }
                } else {
                    let url = normalized_url_exec(&href);
                    let ghost before = available@;
                    available.push(AreaEntry { url: string_of(&url), text: string_of(&text) });
                    proof {
                        assert(area_entry_views(available@) =~= area_entry_views(before).push((url@, text@)));
                    }
                }
            }
        }
        x = x + 1;
    }
    assert(sp.take(spans@.len() as int) =~= sp);
    AreaInfo { available, sold_out, total }
}

pub open spec fn string_views_of(v: Seq<String>) -> Seq<Seq<char>> {
    crate::text::string_views(v)
}


// ---------------------------------------------------------------------------
// Ticket page.
/// The first `>` at or after `p`, or the end of the text.
pub open spec fn gt_or_end(s: Seq<char>, p: int) -> int {
    match crate::text::find_char_from(s, '>', p) {
        Some(k) => k,
        None => s.len() as int,
    }
}

/// `name=["']([^"']+)["']` at `a`: the index of the closing quote.
pub open spec fn name_head(s: Seq<char>, a: int) -> Option<int> {
    if crate::text::ci_matches_at(s, a, "name="@) && a + 5 < s.len() && crate::text::is_quote(s[a + 5]) {
        match crate::text::find_quote_from(s, a + 6) {
            Some(q) => if q > a + 6 { Some(q) } else { None },
            None => None,
        }
    } else {
        None
    }
}

/// `[^>]*>(.*?)</select>` after index `q`: the body span.
pub open spec fn select_close(s: Seq<char>, q: int) -> Option<(int, int)> {
    match crate::text::find_char_from(s, '>', q + 1) {
        Some(g) => match crate::text::ci_find_from(s, "</select>"@, g + 1) {
            Some(e) => Some((g + 1, e)),
            None => None,
        },
        None => None,
    }
}

/// `class=["'][^"']*mobile-select[^"']*["']` at `c`, then the select's end:
/// the body span.
pub open spec fn class_tail(s: Seq<char>, c: int) -> Option<(int, int)> {
    if crate::text::ci_matches_at(s, c, "class="@) && c + 6 < s.len() && crate::text::is_quote(s[c + 6]) {
        match crate::text::find_quote_from(s, c + 7) {
            Some(q2) => match crate::text::ci_find_from(s, "mobile-select"@, c + 7) {
                Some(m) => if m + 13 <= q2 { select_close(s, q2) } else { None },
                None => None,
            },
            None => None,
        }
    } else {
        None
    }
}

pub open spec fn class_pred(s: Seq<char>) -> spec_fn(int) -> bool {
    |c: int| class_tail(s, c) is Some
}

/// The last class position after the name (greedy `[^>]*` before `class=`).
pub open spec fn mobile_class_after(s: Seq<char>, q1: int) -> Option<int> {
    crate::text::last_in(q1 + 1, gt_or_end(s, q1 + 1), class_pred(s))
}

pub open spec fn mobile_name_pred(s: Seq<char>) -> spec_fn(int) -> bool {
    |a: int| match name_head(s, a) {
        Some(q1) => mobile_class_after(s, q1) is Some,
        None => false,
    }
}

pub open spec fn plain_name_pred(s: Seq<char>) -> spec_fn(int) -> bool {
    |a: int| match name_head(s, a) {
        Some(q1) => select_close(s, q1) is Some,
        None => false,
    }
}

/// `(?is)<select[^>]+name=["']([^"']+)["'][^>]*class=["'][^"']*mobile-select[^"']*["'][^>]*>(.*?)</select>`
/// at `i`: `(name_start, name_end, body_start, body_end)`, taking the
/// latest `name=` and then the latest `class=` that complete the match.
pub open spec fn mobile_select_at(s: Seq<char>, i: int) -> Option<(int, int, int, int)> {
    if crate::text::ci_matches_at(s, i, "<select"@) {
        match crate::text::last_in(i + 8, gt_or_end(s, i + 7), mobile_name_pred(s)) {
            Some(a) => {
                let q1 = name_head(s, a).unwrap();
                let c = mobile_class_after(s, q1).unwrap();
                let b = class_tail(s, c).unwrap();
                Some((a + 6, q1, b.0, b.1))
            },
            None => None,
        }
    } else {
        None
    }
}

/// `(?is)<select[^>]+name=["']([^"']+)["'][^>]*>(.*?)</select>` at `i`.
pub open spec fn plain_select_at(s: Seq<char>, i: int) -> Option<(int, int, int, int)> {
    if crate::text::ci_matches_at(s, i, "<select"@) {
        match crate::text::last_in(i + 8, gt_or_end(s, i + 7), plain_name_pred(s)) {
            Some(a) => {
                let q1 = name_head(s, a).unwrap();
                let b = select_close(s, q1).unwrap();
                Some((a + 6, q1, b.0, b.1))
            },
            None => None,
        }
    } else {
        None
    }
}

pub open spec fn mobile_select_pred(s: Seq<char>) -> spec_fn(int) -> bool {
    |i: int| mobile_select_at(s, i) is Some
}

pub open spec fn plain_select_pred(s: Seq<char>) -> spec_fn(int) -> bool {
    |i: int| plain_select_at(s, i) is Some
}

/// The ticket-count `<select>`: the first `mobile-select` one, else the
/// first one.
pub open spec fn select_match(s: Seq<char>) -> Option<(int, int, int, int)> {
    match first_in(0, s.len() as int, mobile_select_pred(s)) {
        Some(i) => mobile_select_at(s, i),
        None => match first_in(0, s.len() as int, plain_select_pred(s)) {
            Some(i) => plain_select_at(s, i),
            None => None,
        },
    }
}

/// The number an ASCII digit string denotes.
pub open spec fn digits_value(d: Seq<char>) -> int
    decreases d.len(),
{
    if d.len() == 0 {
        0
    } else {
        digits_value(d.drop_last()) * 10 + ((d.last() as u32) - 48)
    }
}

/// The numeric `value="..."` options of a select body that fit in a `u32`.
pub open spec fn option_numbers_in(b: Seq<char>, spans: Seq<(int, int)>) -> Seq<u32>
    decreases spans.len(),
{
    if spans.len() == 0 {
        seq![]
    } else {
        let prev = option_numbers_in(b, spans.drop_last());
        let x = option_value_parts(b, spans.last().0).unwrap();
        let v = digits_value(b.subrange(x.0, x.1));
        if v <= u32::MAX {
            prev.push(v as u32)
        } else {
            prev
        }
    }
}

pub open spec fn option_numbers(b: Seq<char>) -> Seq<u32> {
    option_numbers_in(b, constructs(b, Construct::OptionValue, seq![]))
}

/// Every named hidden `<input>` with its value (or empty).
pub open spec fn hidden_fields_in(s: Seq<char>, tags: Seq<(int, int)>) -> Map<Seq<char>, Seq<char>>
    decreases tags.len(),
{
    if tags.len() == 0 {
        Map::empty()
    } else {
        let f = hidden_fields_in(s, tags.drop_last());
        let t = tag_text(s, tags.last());
        if has_type(t, "hidden"@) && tag_attr(t, "name"@) is Some {
            f.insert(tag_attr(t, "name"@)->0, attr_or_empty(t, "value"@))
        } else {
            f
        }
    }
}

/// What `parse_ticket_form` returns: `(fields, select_name, select_options)`.
pub open spec fn ticket_form(s: Seq<char>) -> (Map<Seq<char>, Seq<char>>, Option<Seq<char>>, Seq<u32>) {
    let f = hidden_fields_in(s, input_tags(s));
    let fields = if f.contains_key("TicketForm[agree]"@) { f } else { f.insert("TicketForm[agree]"@, "1"@) };
    match select_match(s) {
        Some(x) => (fields, Some(s.subrange(x.0, x.1)), option_numbers(s.subrange(x.2, x.3))),
        None => (fields, None, seq![]),
    }
}

/// The ticket form: hidden fields, the ticket-count select and its options.
#[derive(Clone, Debug)]
pub struct TicketFormInfo {
    pub fields: FormFields,
    pub select_name: Option<String>,
    pub select_options: Vec<u32>,
}

fn gt_or_end_exec(s: &Vec<char>, p: usize) -> (r: usize)
    ensures
        r == gt_or_end(s@, p as int),
        p <= s@.len() ==> p <= r <= s@.len(),
{
    proof {
        lemma_first_in(p as int, s@.len() as int, crate::text::char_pred(s@, '>'));
    }
    match crate::text::find_char_from_exec(s, '>', p) {
        Some(k) => k,
        None => s.len(),
    }
}

fn name_head_exec(s: &Vec<char>, a: usize) -> (r: Option<usize>)
    ensures
        crate::text::opt_int(r) == name_head(s@, a as int),
        r matches Some(q) ==> a + 6 < q < s@.len(),
{
    proof {
        reveal_strlit("name=");
    }
    if !crate::text::ci_matches_at_exec(s, a, &chars_of("name=")) {
        return None;
    }
    let len = s.len();
    if !(a + 5 < len && (s[a + 5] == '"' || s[a + 5] == '\'')) {
        return None;
    }
    proof {
        lemma_first_in(a + 6, s@.len() as int, crate::text::quote_pred(s@));
    }
    match crate::text::find_quote_from_exec(s, a + 6) {
        Some(q) => if q > a + 6 {
            Some(q)
        } else {
            None
        },
        None => None,
    }
}

fn select_close_exec(s: &Vec<char>, q: usize) -> (r: Option<(usize, usize)>)
    requires
        q < s@.len(),
    ensures
        match r {
            Some(x) => select_close(s@, q as int) == Some((x.0 as int, x.1 as int)) && x.0 <= x.1 <= s@.len(),
            None => select_close(s@, q as int) is None,
        },
{
    let len = s.len();
    proof {
        lemma_first_in(q + 1, s@.len() as int, crate::text::char_pred(s@, '>'));
    }
    match crate::text::find_char_from_exec(s, '>', q + 1) {
        Some(g) => {
            let tag = chars_of("</select>");
            proof {
                lemma_first_in(g + 1, s@.len() - tag@.len() + 1, crate::text::ci_matches_pred(s@, tag@));
            }
            match crate::text::ci_find_from_exec(s, &tag, g + 1) {
                Some(e) => Some((g + 1, e)),
                None => None,
            }
        },
        None => None,
    }
}

fn class_tail_exec(s: &Vec<char>, c: usize) -> (r: Option<(usize, usize)>)
    ensures
        match r {
            Some(x) => class_tail(s@, c as int) == Some((x.0 as int, x.1 as int)) && x.0 <= x.1 <= s@.len(),
            None => class_tail(s@, c as int) is None,
        },
{
    proof {
        reveal_strlit("class=");
    }
    if !crate::text::ci_matches_at_exec(s, c, &chars_of("class=")) {
        return None;
    }
    let len = s.len();
    if !(c + 6 < len && (s[c + 6] == '"' || s[c + 6] == '\'')) {
        return None;
    }
    proof {
        lemma_first_in(c + 7, s@.len() as int, crate::text::quote_pred(s@));
    }
    match crate::text::find_quote_from_exec(s, c + 7) {
        Some(q2) => match crate::text::ci_find_from_exec(s, &chars_of("mobile-select"), c + 7) {
            Some(m) => {
                if m <= q2 && q2 - m >= 13 {
                    select_close_exec(s, q2)
                } else {
                    None
                }
            },
            None => None,
        },
        None => None,
    }
}

fn mobile_class_after_exec(s: &Vec<char>, q1: usize) -> (r: Option<usize>)
    requires
        q1 < s@.len(),
    ensures
        crate::text::opt_int(r) == mobile_class_after(s@, q1 as int),
{
    let len = s.len();
    let hi = gt_or_end_exec(s, q1 + 1);
    let mut c = hi;
    while c > q1 + 1
        invariant
            q1 + 1 <= c <= hi,
            hi == gt_or_end(s@, q1 + 1),
            forall|j: int| c <= j < hi ==> !(#[trigger] class_pred(s@)(j)),
        decreases c,
    {
        if class_tail_exec(s, c - 1).is_some() {
            proof {
                crate::text::lemma_last_in_found(q1 + 1, hi as int, class_pred(s@), c - 1);
            }
            return Some(c - 1);
        }
        c = c - 1;
    }
    proof {
        crate::text::lemma_last_in_none(q1 + 1, hi as int, class_pred(s@));
    }
    None
}

fn mobile_select_at_exec(s: &Vec<char>, i: usize) -> (r: Option<(usize, usize, usize, usize)>)
    ensures
        match r {
            Some(x) => mobile_select_at(s@, i as int) == Some((x.0 as int, x.1 as int, x.2 as int, x.3 as int))
                && x.0 <= x.1 <= s@.len() && x.2 <= x.3 <= s@.len(),
            None => mobile_select_at(s@, i as int) is None,
        },
{
    proof {
        reveal_strlit("<select");
    }
    if !crate::text::ci_matches_at_exec(s, i, &chars_of("<select")) {
        return None;
    }
    let len = s.len();
    let hi = gt_or_end_exec(s, i + 7);
    let mut a = hi;
    while a > i + 7 && a - (i + 7) > 1
        invariant
            len == s@.len(),
            i + 7 <= s@.len(),
            crate::text::ci_matches_at(s@, i as int, "<select"@),
            i + 8 <= a || a == hi,
            a <= hi,
            hi == gt_or_end(s@, i + 7),
            hi <= s@.len(),
            forall|j: int| a <= j < hi ==> !(#[trigger] mobile_name_pred(s@)(j)),
        decreases a,
    {
        let cand = a - 1;
        match name_head_exec(s, cand) {
            Some(q1) => {
                match mobile_class_after_exec(s, q1) {
                    Some(c) => {
                        proof {
                            crate::text::lemma_last_in_found(i + 8, hi as int, mobile_name_pred(s@), cand as int);
                        }
                        let b = class_tail_exec(s, c);
                        match b {
                            Some(b) => {
                                return Some((cand + 6, q1, b.0, b.1));
                            },
                            None => {
                                proof {
                                    crate::text::lemma_last_in(q1 + 1, gt_or_end(s@, q1 + 1), class_pred(s@));
                                }
                                assert(false);
                                return None;
                            },
                        }
                    },
                    None => {},
                }
            },
            None => {},
        }
        a = a - 1;
    }
    proof {
        crate::text::lemma_last_in_none(i + 8, hi as int, mobile_name_pred(s@));
    }
    None
}

fn plain_select_at_exec(s: &Vec<char>, i: usize) -> (r: Option<(usize, usize, usize, usize)>)
    ensures
        match r {
            Some(x) => plain_select_at(s@, i as int) == Some((x.0 as int, x.1 as int, x.2 as int, x.3 as int))
                && x.0 <= x.1 <= s@.len() && x.2 <= x.3 <= s@.len(),
            None => plain_select_at(s@, i as int) is None,
        },
{
    proof {
        reveal_strlit("<select");
    }
    if !crate::text::ci_matches_at_exec(s, i, &chars_of("<select")) {
        return None;
    }
    let len = s.len();
    let hi = gt_or_end_exec(s, i + 7);
    let mut a = hi;
    while a > i + 7 && a - (i + 7) > 1
        invariant
            len == s@.len(),
            i + 7 <= s@.len(),
            crate::text::ci_matches_at(s@, i as int, "<select"@),
            i + 8 <= a || a == hi,
            a <= hi,
            hi == gt_or_end(s@, i + 7),
            hi <= s@.len(),
            forall|j: int| a <= j < hi ==> !(#[trigger] plain_name_pred(s@)(j)),
        decreases a,
    {
        let cand = a - 1;
        match name_head_exec(s, cand) {
            Some(q1) => {
                match select_close_exec(s, q1) {
                    Some(b) => {
                        proof {
                            crate::text::lemma_last_in_found(i + 8, hi as int, plain_name_pred(s@), cand as int);
                        }
                        return Some((cand + 6, q1, b.0, b.1));
                    },
                    None => {},
                }
            },
            None => {},
        }
        a = a - 1;
    }
    proof {
        crate::text::lemma_last_in_none(i + 8, hi as int, plain_name_pred(s@));
    }
    None
}

fn select_match_exec(s: &Vec<char>) -> (r: Option<(usize, usize, usize, usize)>)
    ensures
        match r {
            Some(x) => select_match(s@) == Some((x.0 as int, x.1 as int, x.2 as int, x.3 as int))
                && x.0 <= x.1 <= s@.len() && x.2 <= x.3 <= s@.len(),
            None => select_match(s@) is None,
        },
{
    let mut i: usize = 0;
    while i < s.len()
        invariant
            i <= s@.len(),
            forall|j: int| 0 <= j < i ==> !(#[trigger] mobile_select_pred(s@)(j)),
        decreases s@.len() - i,
    {
        match mobile_select_at_exec(s, i) {
            Some(x) => {
                proof {
                    lemma_first_in_found(0, s@.len() as int, mobile_select_pred(s@), i as int);
                }
                return Some(x);
            },
            None => {},
        }
        i = i + 1;
    }
    proof {
        lemma_first_in_none(0, s@.len() as int, mobile_select_pred(s@));
    }
    let mut i: usize = 0;
    while i < s.len()
        invariant
            i <= s@.len(),
            first_in(0, s@.len() as int, mobile_select_pred(s@)) is None,
            forall|j: int| 0 <= j < i ==> !(#[trigger] plain_select_pred(s@)(j)),
        decreases s@.len() - i,
    {
        match plain_select_at_exec(s, i) {
            Some(x) => {
                proof {
                    lemma_first_in_found(0, s@.len() as int, plain_select_pred(s@), i as int);
                }
                return Some(x);
            },
            None => {},
        }
        i = i + 1;
    }
    proof {
        lemma_first_in_none(0, s@.len() as int, plain_select_pred(s@));
    }
    None
}

proof fn lemma_digits_value_nonneg(d: Seq<char>)
    requires
        forall|j: int| 0 <= j < d.len() ==> '0' <= #[trigger] d[j] && d[j] <= '9',
    ensures
        digits_value(d) >= 0,
    decreases d.len(),
{
    if d.len() > 0 {
        lemma_digits_value_nonneg(d.drop_last());
    }
}

/// Parses ASCII digits as a `u32` (`str::parse::<u32>` on a digit string):
/// `None` when the number does not fit.
fn parse_digits_u32(d: &Vec<char>) -> (r: Option<u32>)
    requires
        forall|j: int| 0 <= j < d@.len() ==> '0' <= #[trigger] d@[j] && d@[j] <= '9',
    ensures
        match r {
            Some(v) => digits_value(d@) == v as int,
            None => digits_value(d@) > u32::MAX,
        },
{
    let mut v: u64 = 0;
    let mut over = false;
    let mut i: usize = 0;
    while i < d.len()
        invariant
            i <= d@.len(),
            forall|j: int| 0 <= j < d@.len() ==> '0' <= #[trigger] d@[j] && d@[j] <= '9',
            !over ==> v == digits_value(d@.take(i as int)) && v <= u32::MAX,
            over ==> digits_value(d@.take(i as int)) > u32::MAX,
        decreases d@.len() - i,
    {
        let c = d[i];
        proof {
            assert(d@.take(i + 1).drop_last() =~= d@.take(i as int));
            assert(d@.take(i + 1).last() == c);
            lemma_digits_value_nonneg(d@.take(i as int));
        }
        let digit = (c as u32) - 48;
        if !over {
            let nv = v * 10 + digit as u64;
            if nv > 4294967295 {
                over = true;
            } else {
                v = nv;
            }
        }
        i = i + 1;
    }
    assert(d@.take(d@.len() as int) =~= d@);
    if over {
        None
    } else {
        Some(v as u32)
    }
}

fn option_numbers_exec(b: &Vec<char>) -> (r: Vec<u32>)
    ensures
        r@ == option_numbers(b@),
{
    let empty: Vec<char> = Vec::new();
    let spans = construct_spans(b, Construct::OptionValue, &empty);
    assert(empty@ =~= Seq::<char>::empty());
    let ghost sp = constructs(b@, Construct::OptionValue, seq![]);
    let mut out: Vec<u32> = Vec::new();
    let mut x: usize = 0;
    while x < spans.len()
        invariant
            crate::html::span_ints(spans@) == sp,
            sp == constructs(b@, Construct::OptionValue, seq![]),
            x <= spans@.len(),
            out@ == option_numbers_in(b@, sp.take(x as int)),
        decreases spans@.len() - x,
    {
        let (a, _e) = spans[x];
        assert(sp[x as int].0 == a as int);
        assert(sp.take(x + 1).drop_last() =~= sp.take(x as int));
        proof {
            crate::html::lemma_scan_members(0, b@.len() as int, crate::html::construct(b@, Construct::OptionValue, seq![]), x as int);
            crate::html::lemma_construct_at(b@, Construct::OptionValue, seq![], a as int);
        }
        match crate::html::option_value_parts_exec(b, a) {
            Some((d0, d1)) => {
                proof {
                    crate::text::lemma_first_in(d0 as int, b@.len() as int, crate::html::not_digit_pred(b@));
                }
                let digits = sub_chars(b, d0, d1);
                assert forall|j: int| 0 <= j < digits@.len() implies '0' <= #[trigger] digits@[j] && digits@[j] <= '9' by {
                    assert(digits@[j] == b@[d0 + j]);
                    assert(!crate::html::not_digit_pred(b@)(d0 + j));
                }
                match parse_digits_u32(&digits) {
                    Some(v) => {
                        out.push(v);
                    },
                    None => {},
                }
            },
            None => {},
        }
        x = x + 1;
    }
    assert(sp.take(spans@.len() as int) =~= sp);
    out
}

fn hidden_fields_exec(s: &Vec<char>, tags: &Vec<(usize, usize)>) -> (r: FormFields)
    requires
        spans_ok(s@, tags@),
    ensures
        r@ == hidden_fields_in(s@, span_ints(tags@)),
{
    let ghost sp = span_ints(tags@);
    let hidden = chars_of("hidden");
    let name_attr = chars_of("name");
    let value_attr = chars_of("value");
    let mut fields = FormFields::new();
    let mut x: usize = 0;
    while x < tags.len()
        invariant
            sp == span_ints(tags@),
            spans_ok(s@, tags@),
            x <= tags@.len(),
            hidden@ == "hidden"@,
            name_attr@ == "name"@,
            value_attr@ == "value"@,
            fields@ == hidden_fields_in(s@, sp.take(x as int)),
        decreases tags@.len() - x,
    {
        let (a, b) = tags[x];
        assert(sp[x as int] == (a as int, b as int));
        assert(sp.take(x + 1).drop_last() =~= sp.take(x as int));
        let t = sub_chars(s, a, b);
        if has_type_exec(&t, &hidden) {
            match tag_attr_exec(&t, &name_attr) {
                Some(n) => {
                    let v = attr_or_empty_exec(&t, &value_attr);
                    fields.insert(string_of(&n), string_of(&v));
                },
                None => {},
            }
        }
        x = x + 1;
    }
    assert(sp.take(tags@.len() as int) =~= sp);
    fields
}

/// Reads the ticket page: every named hidden input (with
/// `TicketForm[agree]` defaulting to "1"), the ticket-count select (the first
/// `mobile-select` one, else the first) and its numeric options.
pub fn parse_ticket_form(html: &str) -> (r: TicketFormInfo)
    ensures
        (r.fields@, opt_view(r.select_name), r.select_options@) == ticket_form(html@),
{
    let s = chars_of(html);
    let tags = named_tag_spans(&s, &chars_of("input"));
    let mut fields = hidden_fields_exec(&s, &tags);
    if !fields.contains_key("TicketForm[agree]") {
        fields.insert(string_of(&chars_of("TicketForm[agree]")), string_of(&chars_of("1")));
    }
    match select_match_exec(&s) {
        Some(x) => {
            let name = sub_chars(&s, x.0, x.1);
            let body = sub_chars(&s, x.2, x.3);
            let options = option_numbers_exec(&body);
            TicketFormInfo { fields, select_name: Some(string_of(&name)), select_options: options }
        },
        None => TicketFormInfo { fields, select_name: None, select_options: Vec::new() },
    }
}


/// What holds of the areas collected so far: the total counts both lists;
/// each available area has a non-empty, whitespace-collapsed text that does
/// not read as sold out and the absolute form of an area link; each sold-out
/// text is non-empty.
pub open spec fn area_acc_ok(acc: AreaAcc) -> bool {
    &&& acc.2 == acc.0.len() + acc.1.len()
    &&& forall|i: int| 0 <= i < acc.0.len() ==> {
        &&& (#[trigger] acc.0[i]).1.len() > 0
        &&& !sold_out_text(acc.0[i].1)
        &&& exists|b: Seq<char>| #[trigger] collapse_ws(b) == acc.0[i].1
        &&& exists|h: Seq<char>| area_target(h) && #[trigger] normalized_url(h) == acc.0[i].0
    }
    &&& forall|i: int| 0 <= i < acc.1.len() ==> {
        &&& (#[trigger] acc.1[i]).len() > 0
        &&& exists|b: Seq<char>| #[trigger] collapse_ws(b) == acc.1[i]
    }
}

proof fn lemma_area_step_ok(s: Seq<char>, acc: AreaAcc, sp: (int, int))
    requires
        area_acc_ok(acc),
    ensures
        area_acc_ok(area_step(s, acc, sp)),
        area_step(s, acc, sp).0.len() >= acc.0.len(),
        area_step(s, acc, sp).1.len() >= acc.1.len(),
{
    let x = anchor_parts(s, sp.0).unwrap();
    let attrs = s.subrange(sp.0 + 2, x.0);
    let body = s.subrange(x.0 + 1, x.1);
    let text = collapse_ws(strip_tags(body));
    let r = area_step(s, acc, sp);
    if text.len() > 0 {
        let id = or_empty(lit_capture(attrs, "id="@, true));
        let href0 = or_empty(lit_capture(attrs, "href="@, false));
        let urls = acc.3;
        let href = if href0.len() == 0 && id.len() > 0 {
            if urls.contains_key(id) { urls[id] } else { seq![] }
        } else {
            href0
        };
        if r.1.len() > acc.1.len() {
            assert(r.1 == acc.1.push(text));
            assert forall|i: int| 0 <= i < r.1.len() implies {
                &&& (#[trigger] r.1[i]).len() > 0
                &&& exists|b: Seq<char>| #[trigger] collapse_ws(b) == r.1[i]
            } by {
                if i < acc.1.len() {
                    assert(r.1[i] == acc.1[i]);
                } else {
                    assert(collapse_ws(strip_tags(body)) == r.1[i]);
                }
            }
        }
        if r.0.len() > acc.0.len() {
            let e = (normalized_url(href), text);
            assert(r.0 == acc.0.push(e));
            assert(href.len() > 0);
            assert(area_target(href));
            assert forall|i: int| 0 <= i < r.0.len() implies {
                &&& (#[trigger] r.0[i]).1.len() > 0
                &&& !sold_out_text(r.0[i].1)
                &&& exists|b: Seq<char>| #[trigger] collapse_ws(b) == r.0[i].1
                &&& exists|h: Seq<char>| area_target(h) && #[trigger] normalized_url(h) == r.0[i].0
            } by {
                if i < acc.0.len() {
                    assert(r.0[i] == acc.0[i]);
                } else {
                    assert(r.0[i] == e);
                    assert(collapse_ws(strip_tags(body)) == r.0[i].1);
                    assert(area_target(href) && normalized_url(href) == r.0[i].0);
                }
            }
        }
    }
}

proof fn lemma_area_fold_ok(s: Seq<char>, spans: Seq<(int, int)>)
    ensures
        area_acc_ok(area_fold(s, spans)),
    decreases spans.len(),
{
    if spans.len() > 0 {
        lemma_area_fold_ok(s, spans.drop_last());
        lemma_area_step_ok(s, area_fold(s, spans.drop_last()), spans.last());
    } else {
        let acc = area_fold(s, spans);
        assert(acc.0.len() == 0 && acc.1.len() == 0);
    }
}

/// The area total counts every listed area, available or sold out; each
/// available area has a non-empty, whitespace-collapsed text that does not
/// read as sold out and the absolute form of an area link (a ticket or
/// verify page); each sold-out text is non-empty and whitespace-collapsed.
pub proof fn lemma_area_list_counts(html: Seq<char>)
    ensures
        ({
            let (available, sold_out, total) = area_list(html);
            &&& total == available.len() + sold_out.len()
            &&& forall|i: int| 0 <= i < available.len() ==> {
                &&& (#[trigger] available[i]).1.len() > 0
                &&& !sold_out_text(available[i].1)
                &&& exists|b: Seq<char>| #[trigger] collapse_ws(b) == available[i].1
                &&& exists|h: Seq<char>| area_target(h) && #[trigger] normalized_url(h) == available[i].0
            }
            &&& forall|i: int| 0 <= i < sold_out.len() ==> {
                &&& (#[trigger] sold_out[i]).len() > 0
                &&& exists|b: Seq<char>| #[trigger] collapse_ws(b) == sold_out[i]
            }
        }),
{
    lemma_area_fold_ok(html, constructs(html, Construct::Anchor, seq![]));
}


// ---------------------------------------------------------------------------
// Laws of the page parsers.

/// The label text after a radio tag as it stands on the page: the window of
/// up to 300 bytes after the tag, cut at the first `</label>`, tags removed
/// and whitespace collapsed, in the page's own letter case.
pub open spec fn label_source_text(s: Seq<char>, e: int) -> Seq<char> {
    let w = s.subrange(e, window_end(s, e, 300));
    match find_from(w, "</label>"@, 0) {
        Some(c) => collapse_ws(strip_tags(w.subrange(0, c))),
        None => collapse_ws(strip_tags(w)),
    }
}

/// Radio labels are compared in lower case: the label of an option is the
/// Unicode lowercase of its text on the page, so two label texts that differ
/// only in letter case give the same label.
pub proof fn lemma_labels_ignore_case(s1: Seq<char>, e1: int, s2: Seq<char>, e2: int)
    ensures
        label_after(s1, e1) == unicode_lowercase(label_source_text(s1, e1)),
        unicode_lowercase(label_source_text(s1, e1)) == unicode_lowercase(label_source_text(s2, e2))
            ==> label_after(s1, e1) == label_after(s2, e2),
{
}

/// The radio `<input>` at `sp` names the group `name` and carries the
/// option `opt`: its `type` is `radio` (ignoring ASCII case), its `value` is
/// the option's value and the option's label is the lowercase of the text
/// after the tag.
pub open spec fn option_from_radio_tag(s: Seq<char>, sp: (int, int), name: Seq<char>, opt: RadioOptionView) -> bool {
    let t = tag_text(s, sp);
    &&& tag_attr(t, "type"@) is Some
    &&& eq_ignore_ascii_case(tag_attr(t, "type"@)->0, "radio"@)
    &&& tag_attr(t, "name"@) == Some(name)
    &&& tag_attr(t, "value"@) == Some(opt.0)
    &&& opt.1 == unicode_lowercase(label_source_text(s, sp.1))
}

/// Option `o` of group `g` comes from one of the tags.
pub open spec fn option_has_source(s: Seq<char>, tags: Seq<(int, int)>, gs: Seq<(Seq<char>, Seq<RadioOptionView>)>, g: int, o: int) -> bool {
    exists|x: int| 0 <= x < tags.len() && #[trigger] option_from_radio_tag(s, tags[x], gs[g].0, gs[g].1[o])
}

pub open spec fn options_from_tags(s: Seq<char>, tags: Seq<(int, int)>, gs: Seq<(Seq<char>, Seq<RadioOptionView>)>) -> bool {
    forall|g: int, o: int| 0 <= g < gs.len() && 0 <= o < gs[g].1.len() ==> #[trigger] option_has_source(s, tags, gs, g, o)
}

proof fn lemma_radio_option_step(s: Seq<char>, tags: Seq<(int, int)>, g: int, o: int)
    requires
        tags.len() > 0,
        options_from_tags(s, tags.drop_last(), radio_groups_in(s, tags.drop_last())),
        0 <= g < radio_groups_in(s, tags).len(),
        0 <= o < radio_groups_in(s, tags)[g].1.len(),
    ensures
        option_has_source(s, tags, radio_groups_in(s, tags), g, o),
{
    let prev = tags.drop_last();
    let g0 = radio_groups_in(s, prev);
    let gs = radio_groups_in(s, tags);
    let last = tags.len() - 1;
    assert(tags[last] == tags.last());
    let from_prev = g < g0.len() && o < g0[g].1.len() && gs[g].0 == g0[g].0 && gs[g].1[o] == g0[g].1[o];
    if from_prev {
        assert(option_has_source(s, prev, g0, g, o));
        let x = choose|x: int| 0 <= x < prev.len() && #[trigger] option_from_radio_tag(s, prev[x], g0[g].0, g0[g].1[o]);
        assert(tags[x] == prev[x]);
        assert(option_from_radio_tag(s, tags[x], gs[g].0, gs[g].1[o]));
    } else {
        match radio_parts(s, tags.last()) {
            Some((n, v)) => {
                lemma_first_in(0, g0.len() as int, group_name_pred(g0, n));
                assert(gs[g].1[o] == (v, label_after(s, tags.last().1)));
                assert(gs[g].0 == n);
                assert(option_from_radio_tag(s, tags[last], gs[g].0, gs[g].1[o]));
            },
            None => {
                assert(gs == g0);
            },
        }
    }
}

/// Every option of a parsed radio group comes from a radio `<input>` of the
/// page: the tag names the group, its `value` is the option's value, and the
/// option's label is the lowercase of the text after the tag.
pub proof fn lemma_radio_options_from_tags(s: Seq<char>, tags: Seq<(int, int)>)
    ensures
        options_from_tags(s, tags, radio_groups_in(s, tags)),
    decreases tags.len(),
{
    if tags.len() > 0 {
        lemma_radio_options_from_tags(s, tags.drop_last());
        assert forall|g: int, o: int| 0 <= g < radio_groups_in(s, tags).len() && 0 <= o < radio_groups_in(s, tags)[g].1.len()
            implies #[trigger] option_has_source(s, tags, radio_groups_in(s, tags), g, o) by {
            lemma_radio_option_step(s, tags, g, o);
        }
    }
}


/// A payment group takes the first option whose label holds "atm" (both
/// compared in lower case), whenever there is one: ATM is the first payment
/// keyword.
pub proof fn lemma_payment_prefers_atm(name: Seq<char>, opts: Seq<RadioOptionView>)
    requires
        contains(unicode_lowercase(name), "payment"@),
        exists|o: int| 0 <= o < opts.len() && #[trigger] contains(opts[o].1, unicode_lowercase("atm"@)),
    ensures
        exists|o: int| {
            &&& 0 <= o < opts.len()
            &&& contains(opts[o].1, unicode_lowercase("atm"@))
            &&& forall|j: int| 0 <= j < o ==> !#[trigger] contains(opts[j].1, unicode_lowercase("atm"@))
            &&& group_choice(name, opts) == (#[trigger] opts[o]).0
        },
{
    let kws = payment_keywords();
    assert(kws[0] == "atm"@);
    let f = label_has_pred(opts, kws[0]);
    lemma_first_in(0, opts.len() as int, f);
    let w = choose|o: int| 0 <= o < opts.len() && #[trigger] contains(opts[o].1, unicode_lowercase("atm"@));
    assert(f(w));
    let o = first_in(0, opts.len() as int, f)->0;
    assert(select_by_keywords(opts, kws) == opts[o].0);
    assert forall|j: int| 0 <= j < o implies !#[trigger] contains(opts[j].1, unicode_lowercase("atm"@)) by {
        assert(!f(j));
    }
}

/// No area offered for purchase reads as sold out: its text holds none of
/// 選購一空, 已售完, 空席なし, 完売, 暫無, and its lowercase holds neither
/// "sold out" nor "no tickets".
pub proof fn lemma_available_areas_not_sold_out(html: Seq<char>)
    ensures
        forall|i: int| 0 <= i < area_list(html).0.len() ==> {
            let t = (#[trigger] area_list(html).0[i]).1;
            &&& !contains(t, "選購一空"@)
            &&& !contains(t, "已售完"@)
            &&& !contains(t, "空席なし"@)
            &&& !contains(t, "完売"@)
            &&& !contains(t, "暫無"@)
            &&& !contains(unicode_lowercase(t), "sold out"@)
            &&& !contains(unicode_lowercase(t), "no tickets"@)
        },
{
    lemma_area_list_counts(html);
}

/// Whether the tag is an `<input>` of type `hidden` (ignoring ASCII case)
/// named `name`.
pub open spec fn hidden_input_named(t: Seq<char>, name: Seq<char>) -> bool {
    &&& tag_attr(t, "type"@) is Some
    &&& eq_ignore_ascii_case(tag_attr(t, "type"@)->0, "hidden"@)
    &&& tag_attr(t, "name"@) == Some(name)
}

proof fn lemma_hidden_fields_keys(s: Seq<char>, tags: Seq<(int, int)>)
    ensures
        forall|k: Seq<char>| #[trigger] hidden_fields_in(s, tags).contains_key(k) ==>
            exists|x: int| 0 <= x < tags.len() && hidden_input_named(tag_text(s, #[trigger] tags[x]), k),
        forall|x: int| 0 <= x < tags.len() && tag_attr(tag_text(s, #[trigger] tags[x]), "type"@) is Some
            && eq_ignore_ascii_case(tag_attr(tag_text(s, tags[x]), "type"@)->0, "hidden"@)
            && tag_attr(tag_text(s, tags[x]), "name"@) is Some
            ==> hidden_fields_in(s, tags).contains_key(tag_attr(tag_text(s, tags[x]), "name"@)->0),
    decreases tags.len(),
{
    if tags.len() > 0 {
        let prev = tags.drop_last();
        lemma_hidden_fields_keys(s, prev);
        let last = tags.len() - 1;
        assert(tags[last] == tags.last());
        let f = hidden_fields_in(s, tags);
        assert forall|k: Seq<char>| #[trigger] f.contains_key(k) implies
            exists|x: int| 0 <= x < tags.len() && hidden_input_named(tag_text(s, #[trigger] tags[x]), k) by {
            if hidden_fields_in(s, prev).contains_key(k) {
                let x = choose|x: int| 0 <= x < prev.len() && hidden_input_named(tag_text(s, #[trigger] prev[x]), k);
                assert(tags[x] == prev[x]);
            } else {
                assert(hidden_input_named(tag_text(s, tags[last]), k));
            }
        }
        assert forall|x: int| 0 <= x < tags.len() && tag_attr(tag_text(s, #[trigger] tags[x]), "type"@) is Some
            && eq_ignore_ascii_case(tag_attr(tag_text(s, tags[x]), "type"@)->0, "hidden"@)
            && tag_attr(tag_text(s, tags[x]), "name"@) is Some
            implies f.contains_key(tag_attr(tag_text(s, tags[x]), "name"@)->0) by {
            if x < last {
                assert(tags[x] == prev[x]);
            }
        }
    }
}

/// The ticket form keeps only hidden inputs: every field is the name of an
/// `<input>` of type `hidden` (ignoring ASCII case), or `TicketForm[agree]`;
/// every named hidden input is a field; and without a hidden input named
/// `TicketForm[agree]` that field is "1".
pub proof fn lemma_ticket_form_fields(html: Seq<char>)
    ensures
        forall|k: Seq<char>| #[trigger] ticket_form(html).0.contains_key(k) ==> k == "TicketForm[agree]"@
            || exists|x: int| 0 <= x < input_tags(html).len() && hidden_input_named(tag_text(html, #[trigger] input_tags(html)[x]), k),
        forall|x: int| 0 <= x < input_tags(html).len() && tag_attr(tag_text(html, #[trigger] input_tags(html)[x]), "type"@) is Some
            && eq_ignore_ascii_case(tag_attr(tag_text(html, input_tags(html)[x]), "type"@)->0, "hidden"@)
            && tag_attr(tag_text(html, input_tags(html)[x]), "name"@) is Some
            ==> ticket_form(html).0.contains_key(tag_attr(tag_text(html, input_tags(html)[x]), "name"@)->0),
        (forall|x: int| 0 <= x < input_tags(html).len() ==> !hidden_input_named(tag_text(html, #[trigger] input_tags(html)[x]), "TicketForm[agree]"@))
            ==> ticket_form(html).0.contains_key("TicketForm[agree]"@) && ticket_form(html).0["TicketForm[agree]"@] == "1"@,
{
    let tags = input_tags(html);
    lemma_hidden_fields_keys(html, tags);
    let f = hidden_fields_in(html, tags);
    if forall|x: int| 0 <= x < tags.len() ==> !hidden_input_named(tag_text(html, #[trigger] tags[x]), "TicketForm[agree]"@) {
        assert(!f.contains_key("TicketForm[agree]"@));
    }
}

proof fn lemma_game_rows_keep(s: Seq<char>, spans: Seq<(int, int)>, j: int)
    requires
        0 <= j < spans.len(),
        game_row(s, spans[j]) is Some,
    ensures
        game_rows_in(s, spans).contains(game_row(s, spans[j])->0),
    decreases spans.len(),
{
    let last = spans.len() - 1;
    if j == last {
        assert(spans.last() == spans[j]);
        assert(game_rows_in(s, spans).last() == game_row(s, spans[j])->0);
    } else {
        let prev = spans.drop_last();
        assert(prev[j] == spans[j]);
        lemma_game_rows_keep(s, prev, j);
        let r = game_rows_in(s, prev);
        let i = choose|i: int| 0 <= i < r.len() && r[i] == game_row(s, spans[j])->0;
        match game_row(s, spans.last()) {
            Some(row) => assert(r.push(row)[i] == r[i]),
            None => {},
        }
    }
}

/// A show row is kept when its first `data-href` is an area page or a
/// verify page (`/ticket/area/`, `/activity/verify/`, `/ticket/verify/`,
/// relative or on `https://tixcraft.com`): the row's text with that link,
/// made absolute, is among the parsed rows.
pub proof fn lemma_game_list_keeps_target_rows(html: Seq<char>, j: int, h: Seq<char>)
    requires
        0 <= j < constructs(html, Construct::Row, seq![]).len(),
        data_href(row_body(html, constructs(html, Construct::Row, seq![])[j].0)) == Some(h),
        crate::text::starts_with(h, "/ticket/area/"@) || crate::text::starts_with(h, "https://tixcraft.com/ticket/area/"@)
            || crate::text::starts_with(h, "/activity/verify/"@) || crate::text::starts_with(h, "https://tixcraft.com/activity/verify/"@)
            || crate::text::starts_with(h, "/ticket/verify/"@) || crate::text::starts_with(h, "https://tixcraft.com/ticket/verify/"@),
    ensures
        game_list(html).contains((collapse_ws(strip_tags(row_body(html, constructs(html, Construct::Row, seq![])[j].0))), normalized_url(h))),
{
    let spans = constructs(html, Construct::Row, seq![]);
    assert(game_target(h));
    lemma_game_rows_keep(html, spans, j);
}


/// An area or verify link, relative or on `https://tixcraft.com`.
pub open spec fn listed_show_link(h: Seq<char>) -> bool {
    crate::text::starts_with(h, "/ticket/area/"@) || crate::text::starts_with(h, "https://tixcraft.com/ticket/area/"@)
        || crate::text::starts_with(h, "/activity/verify/"@) || crate::text::starts_with(h, "https://tixcraft.com/activity/verify/"@)
        || crate::text::starts_with(h, "/ticket/verify/"@) || crate::text::starts_with(h, "https://tixcraft.com/ticket/verify/"@)
}

/// The row's URL is the absolute form of an area or verify link.
pub open spec fn row_url_is_show_link(row: (Seq<char>, Seq<char>)) -> bool {
    exists|h: Seq<char>| listed_show_link(h) && #[trigger] normalized_url(h) == row.1
}

proof fn lemma_game_rows_sound(s: Seq<char>, spans: Seq<(int, int)>)
    ensures
        forall|i: int| 0 <= i < game_rows_in(s, spans).len() ==> row_url_is_show_link(#[trigger] game_rows_in(s, spans)[i]),
    decreases spans.len(),
{
    if spans.len() > 0 {
        let prev = spans.drop_last();
        lemma_game_rows_sound(s, prev);
        let r = game_rows_in(s, prev);
        match game_row(s, spans.last()) {
            Some(row) => {
                let h = data_href(row_body(s, spans.last().0))->0;
                assert(listed_show_link(h) && normalized_url(h) == row.1);
                assert(row_url_is_show_link(row));
                assert forall|i: int| 0 <= i < r.push(row).len() implies row_url_is_show_link(#[trigger] r.push(row)[i]) by {
                    if i < r.len() {
                        assert(r.push(row)[i] == r[i]);
                    }
                }
            },
            None => {},
        }
    }
}

/// Every parsed show row points at an area or verify page: its URL is the
/// absolute form of a link under `/ticket/area/`, `/activity/verify/` or
/// `/ticket/verify/`, relative or on `https://tixcraft.com`.
pub proof fn lemma_game_list_targets_only(html: Seq<char>)
    ensures
        forall|i: int| 0 <= i < game_list(html).len() ==> row_url_is_show_link(#[trigger] game_list(html)[i]),
{
    lemma_game_rows_sound(html, constructs(html, Construct::Row, seq![]));
}


/// The whitespace-collapsed text of the anchor at `sp`.
pub open spec fn anchor_text(s: Seq<char>, sp: (int, int)) -> Seq<char> {
    let x = anchor_parts(s, sp.0).unwrap();
    collapse_ws(strip_tags(s.subrange(x.0 + 1, x.1)))
}

/// The `href` attribute of the anchor at `sp`, or empty.
pub open spec fn anchor_href(s: Seq<char>, sp: (int, int)) -> Seq<char> {
    let x = anchor_parts(s, sp.0).unwrap();
    or_empty(lit_capture(s.subrange(sp.0 + 2, x.0), "href="@, false))
}

proof fn lemma_area_step_keeps_sold_out(s: Seq<char>, acc: AreaAcc, sp: (int, int), t: Seq<char>)
    requires
        acc.1.contains(t),
    ensures
        area_step(s, acc, sp).1.contains(t),
{
    let r = area_step(s, acc, sp);
    let i = choose|i: int| 0 <= i < acc.1.len() && acc.1[i] == t;
    if r.1 != acc.1 {
        let x = anchor_parts(s, sp.0).unwrap();
        let text = collapse_ws(strip_tags(s.subrange(x.0 + 1, x.1)));
        assert(r.1 == acc.1.push(text));
        assert(r.1[i] == acc.1[i]);
    }
}

proof fn lemma_area_fold_lists_sold_out(s: Seq<char>, spans: Seq<(int, int)>, j: int)
    requires
        0 <= j < spans.len(),
        anchor_text(s, spans[j]).len() > 0,
        area_target(anchor_href(s, spans[j])),
        contains(anchor_text(s, spans[j]), "已售完"@),
    ensures
        area_fold(s, spans).1.contains(anchor_text(s, spans[j])),
    decreases spans.len(),
{
    let last = spans.len() - 1;
    let prev = spans.drop_last();
    let acc = area_fold(s, prev);
    if j == last {
        let sp = spans[j];
        assert(spans.last() == sp);
        let href = anchor_href(s, sp);
        assert(href.len() > 0) by {
            reveal_strlit("/ticket/ticket/");
            reveal_strlit("https://tixcraft.com/ticket/ticket/");
            reveal_strlit("/ticket/verify/");
            reveal_strlit("https://tixcraft.com/ticket/verify/");
            reveal_strlit("/activity/verify/");
            reveal_strlit("https://tixcraft.com/activity/verify/");
        }
        crate::text::lemma_trim_bounds(href);
        let r = area_step(s, acc, sp);
        assert(sold_out_text(anchor_text(s, sp)));
        assert(r.1 == acc.1.push(anchor_text(s, sp)));
        assert(r.1[acc.1.len() as int] == anchor_text(s, sp));
    } else {
        assert(prev[j] == spans[j]);
        lemma_area_fold_lists_sold_out(s, prev, j);
        lemma_area_step_keeps_sold_out(s, acc, spans.last(), anchor_text(s, spans[j]));
    }
}

/// An area link whose text says 已售完 is listed as sold out: for an anchor
/// of the page with a non-empty text containing 已售完 and an `href` to a
/// ticket or verify page, that text is among the sold-out areas.
pub proof fn lemma_sold_out_anchor_listed(html: Seq<char>, j: int)
    requires
        0 <= j < constructs(html, Construct::Anchor, seq![]).len(),
        anchor_text(html, constructs(html, Construct::Anchor, seq![])[j]).len() > 0,
        area_target(anchor_href(html, constructs(html, Construct::Anchor, seq![])[j])),
        contains(anchor_text(html, constructs(html, Construct::Anchor, seq![])[j]), "已售完"@),
    ensures
        area_list(html).1.contains(anchor_text(html, constructs(html, Construct::Anchor, seq![])[j])),
{
    lemma_area_fold_lists_sold_out(html, constructs(html, Construct::Anchor, seq![]), j);
}

} // verus!
