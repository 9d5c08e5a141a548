//! The tixcraft API-mode rules: URL classes, target and area choice, the
//! ticket-count choice, error extraction from pages, and the per-step
//! decisions of the watch, verify, ticket and order flows.

use vstd::prelude::*;
use crate::config::{AppConfig, EventConfig, SessionConfig};
use crate::keywords::{keyword_matches, keyword_matches_chars};
use crate::parser::{area_entry_views, login_required, login_required_chars, normalized_url, normalized_url_exec, AreaEntry};
use crate::text::{
    append_chars, chars_of, ci_matches_at, ci_matches_at_exec, collapse_ws, collapse_ws_exec, contains,
    contains_exec, decimal, decimal_chars, ends_with, ends_with_exec, find_char_from, find_char_from_exec,
    first_in, is_blank, is_quote, lemma_first_in, lemma_first_in_found, lemma_first_in_none, opt_int,
    replace_all, replace_all_exec, replace_char, replace_char_exec, string_of, sub_chars, to_lowercase,
    trim, trim_end_char, trim_end_char_exec, unicode_lowercase, utf8_len,
};

verus! {

// ---------------------------------------------------------------------------
// URL classes.
/// `BASE_URL`.
pub open spec fn base_url() -> Seq<char> {
    "https://tixcraft.com"@
}

/// An absolute URL unchanged; a path on `https://tixcraft.com`.
pub fn normalize_url(url: &str) -> (r: String)
    ensures
        r@ == normalized_url(url@),
{
    string_of(&normalized_url_exec(&chars_of(url)))
}

pub open spec fn verify_url(u: Seq<char>) -> bool {
    contains(u, "/activity/verify/"@) || contains(u, "/ticket/verify/"@)
}

pub fn is_verify_url(url: &str) -> (r: bool)
    ensures
        r == verify_url(url@),
{
    let u = chars_of(url);
    contains_exec(&u, &chars_of("/activity/verify/")) || contains_exec(&u, &chars_of("/ticket/verify/"))
}

/// The check-code endpoint that answers a verify page.
pub open spec fn check_url_of(u: Seq<char>) -> Seq<char> {
    if contains(u, "/activity/verify/"@) {
        replace_all(u, "/activity/verify/"@, "/activity/check-code/"@)
    } else if contains(u, "/ticket/verify/"@) {
        replace_all(u, "/ticket/verify/"@, "/ticket/check-code/"@)
    } else {
        u
    }
}

pub fn verify_check_url(verify_url: &str) -> (r: String)
    ensures
        r@ == check_url_of(verify_url@),
{
    let u = chars_of(verify_url);
    let activity = chars_of("/activity/verify/");
    let ticket = chars_of("/ticket/verify/");
    proof {
        reveal_strlit("/activity/verify/");
        reveal_strlit("/ticket/verify/");
    }
    if contains_exec(&u, &activity) {
        string_of(&replace_all_exec(&u, &activity, &chars_of("/activity/check-code/")))
    } else if contains_exec(&u, &ticket) {
        string_of(&replace_all_exec(&u, &ticket, &chars_of("/ticket/check-code/")))
    } else {
        string_of(&u)
    }
}

pub open spec fn checkout_url(u: Seq<char>) -> bool {
    contains(u, "/ticket/order"@) || contains(u, "/ticket/checkout"@)
}

pub fn is_checkout_url(url: &str) -> (r: bool)
    ensures
        r == checkout_url(url@),
{
    let u = chars_of(url);
    contains_exec(&u, &chars_of("/ticket/order")) || contains_exec(&u, &chars_of("/ticket/checkout"))
}

/// The order-complete page (an `/order` page outside `/ticket/`).
pub open spec fn success_order_url(u: Seq<char>) -> bool {
    contains(u, "/order"@) && !contains(u, "/ticket/"@)
}

pub fn is_success_order_url(url: &str) -> (r: bool)
    ensures
        r == success_order_url(url@),
{
    let u = chars_of(url);
    contains_exec(&u, &chars_of("/order")) && !contains_exec(&u, &chars_of("/ticket/"))
}

/// A page that means the attempt was thrown back: ticket, area, game and
/// detail pages, and the site root.
pub open spec fn fail_url(u: Seq<char>) -> bool {
    ||| contains(u, "/ticket/ticket/"@)
    ||| contains(u, "/ticket/area/"@)
    ||| contains(u, "/activity/game/"@)
    ||| contains(u, "/activity/detail/"@)
    ||| ends_with(trim_end_char(u, '/'), "tixcraft.com"@)
}

pub fn is_fail_url(url: &str) -> (r: bool)
    ensures
        r == fail_url(url@),
{
    let u = chars_of(url);
    contains_exec(&u, &chars_of("/ticket/ticket/")) || contains_exec(&u, &chars_of("/ticket/area/"))
        || contains_exec(&u, &chars_of("/activity/game/")) || contains_exec(&u, &chars_of("/activity/detail/"))
        || ends_with_exec(&trim_end_char_exec(&u, '/'), &chars_of("tixcraft.com"))
}

/// The last `/`-separated segment of a text.
pub open spec fn last_segment(t: Seq<char>) -> Seq<char> {
    match crate::text::last_in(0, t.len() as int, crate::text::char_pred(t, '/')) {
        Some(k) => t.subrange(k + 1, t.len() as int),
        None => t,
    }
}

/// The game page of an event: a detail URL is mapped onto the game page of
/// its slug; any other URL is the game page itself.
pub open spec fn game_url_of(u: Seq<char>) -> Seq<char> {
    if contains(u, "/activity/detail/"@) {
        base_url() + "/activity/game/"@ + last_segment(trim_end_char(u, '/'))
    } else {
        u
    }
}

fn last_segment_exec(t: &Vec<char>) -> (r: Vec<char>)
    ensures
        r@ == last_segment(t@),
{
    let mut k = t.len();
    while k > 0
        invariant
            k <= t@.len(),
            forall|j: int| k <= j < t@.len() ==> !(#[trigger] crate::text::char_pred(t@, '/')(j)),
        decreases k,
    {
        if t[k - 1] == '/' {
            proof {
                crate::text::lemma_last_in_found(0, t@.len() as int, crate::text::char_pred(t@, '/'), k - 1);
            }
            return sub_chars(t, k, t.len());
        }
        k = k - 1;
    }
    proof {
        crate::text::lemma_last_in_none(0, t@.len() as int, crate::text::char_pred(t@, '/'));
    }
    sub_chars(t, 0, t.len())
}

pub fn game_url(event: &EventConfig) -> (r: String)
    ensures
        r@ == game_url_of(event.url@),
{
    let u = chars_of(event.url.as_str());
    if contains_exec(&u, &chars_of("/activity/detail/")) {
        let slug = last_segment_exec(&trim_end_char_exec(&u, '/'));
        let mut out = chars_of("https://tixcraft.com/activity/game/");
        append_chars(&mut out, &slug);
        proof {
            assert(out@ =~= base_url() + "/activity/game/"@ + slug@) by {
                reveal_strlit("https://tixcraft.com/activity/game/");
                reveal_strlit("https://tixcraft.com");
                reveal_strlit("/activity/game/");
            }
        }
        string_of(&out)
    } else {
        event.url.clone()
    }
}

// ---------------------------------------------------------------------------
// Blocked responses.
/// `BLOCKED_CODES`: 401 and 403.
pub open spec fn blocked_status(status: u16) -> bool {
    status == 401 || status == 403
}

pub fn is_blocked_status(status: u16) -> (r: bool)
    ensures
        r == blocked_status(status),
{
    status == 401 || status == 403
}

/// An error text that reports a blocked status ("收到 401" or "收到 403").
pub open spec fn blocked_message(m: Seq<char>) -> bool {
    contains(m, "收到 401"@) || contains(m, "收到 403"@)
}

pub fn is_blocked_error_message(message: &str) -> (r: bool)
    ensures
        r == blocked_message(message@),
{
    let m = chars_of(message);
    contains_exec(&m, &chars_of("收到 401")) || contains_exec(&m, &chars_of("收到 403"))
}

// ---------------------------------------------------------------------------
// Targets and areas.
pub open spec fn row_views(rows: Seq<(String, String)>) -> Seq<(Seq<char>, Seq<char>)> {
    rows.map_values(|r: (String, String)| (r.0@, r.1@))
}

/// The rows whose date text matches the keyword list, in order.
pub open spec fn rows_matching(rows: Seq<(Seq<char>, Seq<char>)>, kw: Seq<char>) -> Seq<(Seq<char>, Seq<char>)>
    decreases rows.len(),
{
    if rows.len() == 0 {
        seq![]
    } else {
        let rest = rows_matching(rows.drop_last(), kw);
        if keyword_matches(rows.last().0, kw) {
            rest.push(rows.last())
        } else {
            rest
        }
    }
}

/// The watch targets: every row matching `date_keyword`; the first row when
/// the keyword is blank or matches none; nothing without rows.
pub open spec fn selected_rows(rows: Seq<(Seq<char>, Seq<char>)>, kw: Seq<char>) -> Seq<(Seq<char>, Seq<char>)> {
    if rows.len() == 0 {
        seq![]
    } else if trim(kw).len() == 0 || rows_matching(rows, kw).len() == 0 {
        seq![rows[0]]
    } else {
        rows_matching(rows, kw)
    }
}

fn clone_row(row: &(String, String)) -> (r: (String, String))
    ensures
        r.0@ == row.0@,
        r.1@ == row.1@,
{
    (row.0.clone(), row.1.clone())
}

pub fn select_game_rows(rows: &Vec<(String, String)>, date_keyword: &str) -> (r: Vec<(String, String)>)
    ensures
        row_views(r@) == selected_rows(row_views(rows@), date_keyword@),
{
    let ghost rv = row_views(rows@);
    if rows.len() == 0 {
        let none: Vec<(String, String)> = Vec::new();
        assert(row_views(none@) =~= Seq::<(Seq<char>, Seq<char>)>::empty());
        return none;
    }
    let kw = chars_of(date_keyword);
    let mut matched: Vec<(String, String)> = Vec::new();
    if !is_blank(&kw) {
        let mut i: usize = 0;
        while i < rows.len()
            invariant
                i <= rows@.len(),
                rv == row_views(rows@),
                kw@ == date_keyword@,
                row_views(matched@) == rows_matching(rv.take(i as int), kw@),
            decreases rows@.len() - i,
        {
            let date = chars_of(rows[i].0.as_str());
            let ghost before = matched@;
            assert(rv.take(i + 1).drop_last() =~= rv.take(i as int));
            assert(rv.take(i + 1).last() == rv[i as int]);
            if keyword_matches_chars(&date, &kw) {
                matched.push(clone_row(&rows[i]));
                assert(row_views(matched@) =~= row_views(before).push(rv[i as int]));
            }
            i = i + 1;
        }
        assert(rv.take(rows@.len() as int) =~= rv);
        if matched.len() > 0 {
            return matched;
        }
    }
    let mut first: Vec<(String, String)> = Vec::new();
    first.push(clone_row(&rows[0]));
    assert(row_views(first@) =~= seq![rv[0]]);
    first
}

/// Areas reserved for wheelchair users or standing areas, which are skipped.
pub open spec fn skipped_area(t: Seq<char>) -> bool {
    ||| contains(t, "身心障礙"@)
    ||| contains(t, "身障"@)
    ||| contains(t, "輪椅"@)
    ||| contains(unicode_lowercase(t), "wheelchair"@)
    ||| contains(t, "殘障"@)
    ||| contains(t, "站區"@)
    ||| contains(t, "搖滾站"@)
}

pub fn should_skip_area(text: &str) -> (r: bool)
    ensures
        r == skipped_area(text@),
{
    let t = chars_of(text);
    let lower = to_lowercase(&t);
    contains_exec(&t, &chars_of("身心障礙")) || contains_exec(&t, &chars_of("身障"))
        || contains_exec(&t, &chars_of("輪椅")) || contains_exec(&lower, &chars_of("wheelchair"))
        || contains_exec(&t, &chars_of("殘障")) || contains_exec(&t, &chars_of("站區"))
        || contains_exec(&t, &chars_of("搖滾站"))
}

/// The areas (as `(url, text)`) that are not skipped, in order.
pub open spec fn selectable(areas: Seq<(Seq<char>, Seq<char>)>) -> Seq<(Seq<char>, Seq<char>)>
    decreases areas.len(),
{
    if areas.len() == 0 {
        seq![]
    } else {
        let rest = selectable(areas.drop_last());
        if skipped_area(areas.last().1) {
            rest
        } else {
            rest.push(areas.last())
        }
    }
}

pub fn filter_selectable_areas(areas: Vec<AreaEntry>) -> (r: Vec<AreaEntry>)
    ensures
        area_entry_views(r@) == selectable(area_entry_views(areas@)),
{
    let ghost av = area_entry_views(areas@);
    let mut out: Vec<AreaEntry> = Vec::new();
    let mut i: usize = 0;
    while i < areas.len()
        invariant
            i <= areas@.len(),
            av == area_entry_views(areas@),
            area_entry_views(out@) == selectable(av.take(i as int)),
        decreases areas@.len() - i,
    {
        assert(av.take(i + 1).drop_last() =~= av.take(i as int));
        assert(av.take(i + 1).last() == av[i as int]);
        let ghost before = out@;
        if !should_skip_area(areas[i].text.as_str()) {
            out.push(areas[i].clone());
            assert(area_entry_views(out@) =~= area_entry_views(before).push(av[i as int]));
        }
        i = i + 1;
    }
    assert(av.take(areas@.len() as int) =~= av);
    out
}

pub open spec fn area_keyword_pred(areas: Seq<(Seq<char>, Seq<char>)>, kw: Seq<char>) -> spec_fn(int) -> bool {
    |i: int| keyword_matches(areas[i].1, kw)
}

/// The area to buy: the first one matching `area_keyword` when it is set and
/// something matches, else the first area.
pub open spec fn chosen_area(areas: Seq<(Seq<char>, Seq<char>)>, kw: Seq<char>) -> (Seq<char>, Seq<char>) {
    if trim(kw).len() > 0 {
        match first_in(0, areas.len() as int, area_keyword_pred(areas, kw)) {
            Some(i) => areas[i],
            None => areas[0],
        }
    } else {
        areas[0]
    }
}

pub fn select_area(area_keyword: &str, available: &Vec<AreaEntry>) -> (r: AreaEntry)
    requires
        available@.len() > 0,
    ensures
        (r.url@, r.text@) == chosen_area(area_entry_views(available@), area_keyword@),
{
    let ghost av = area_entry_views(available@);
    let kw = chars_of(area_keyword);
    if !is_blank(&kw) {
        let mut i: usize = 0;
        while i < available.len()
            invariant
                i <= available@.len(),
                kw@ == area_keyword@,
                av == area_entry_views(available@),
                forall|j: int| 0 <= j < i ==> !(#[trigger] area_keyword_pred(av, kw@)(j)),
            decreases available@.len() - i,
        {
            let text = chars_of(available[i].text.as_str());
            if keyword_matches_chars(&text, &kw) {
                proof {
                    lemma_first_in_found(0, available@.len() as int, area_keyword_pred(av, kw@), i as int);
                }
                return available[i].clone();
            }
            i = i + 1;
        }
        proof {
            lemma_first_in_none(0, available@.len() as int, area_keyword_pred(av, kw@));
        }
    }
    available[0].clone()
}

// ---------------------------------------------------------------------------
// Ticket count.
/// The largest positive value of a list, if any.
pub open spec fn max_positive(s: Seq<u32>) -> Option<u32>
    decreases s.len(),
{
    if s.len() == 0 {
        None
    } else {
        let rest = max_positive(s.drop_last());
        let x = s.last();
        if x == 0 {
            rest
        } else {
            match rest {
                Some(m) => if x > m { Some(x) } else { Some(m) },
                None => Some(x),
            }
        }
    }
}

/// The number of tickets to ask for: the desired count when the page offers
/// no options or offers that count, else the largest positive option.
pub open spec fn ticket_count_choice(options: Seq<u32>, desired: u32) -> Option<u32> {
    if options.len() == 0 || options.contains(desired) {
        Some(desired)
    } else {
        max_positive(options)
    }
}

pub fn select_ticket_count(options: &Vec<u32>, desired_count: u32) -> (r: Option<u32>)
    ensures
        r == ticket_count_choice(options@, desired_count),
{
    if options.len() == 0 {
        return Some(desired_count);
    }
    let mut i: usize = 0;
    let mut best: Option<u32> = None;
    let mut found = false;
    while i < options.len()
        invariant
            i <= options@.len(),
            best == max_positive(options@.take(i as int)),
            found == options@.take(i as int).contains(desired_count),
        decreases options@.len() - i,
    {
        let x = options[i];
        assert(options@.take(i + 1).drop_last() =~= options@.take(i as int));
        assert(options@.take(i + 1).last() == x);
        proof {
            let t1 = options@.take(i + 1);
            let t0 = options@.take(i as int);
            assert(t1 =~= t0.push(x));
            if x == desired_count {
                assert(t1[i as int] == x);
            }
            if t1.contains(desired_count) && x != desired_count {
                let k = choose|k: int| 0 <= k < t1.len() && t1[k] == desired_count;
                assert(t0[k] == desired_count);
            }
            if t0.contains(desired_count) {
                let k = choose|k: int| 0 <= k < t0.len() && t0[k] == desired_count;
                assert(t1[k] == desired_count);
            }
        }
        if x == desired_count {
            found = true;
        }
        if x > 0 {
            best = match best {
                Some(m) => if x > m { Some(x) } else { Some(m) },
                None => Some(x),
            };
        }
        i = i + 1;
    }
    assert(options@.take(options@.len() as int) =~= options@);
    if found {
        Some(desired_count)
    } else {
        best
    }
}

/// Whatever the options, the chosen count is one of them or the desired
/// count, and it is positive whenever the desired count is.
pub proof fn lemma_ticket_count_is_offered(options: Seq<u32>, desired: u32)
    ensures
        ticket_count_choice(options, desired) matches Some(n) ==> (n == desired || (options.contains(n) && n > 0)),
        ticket_count_choice(options, desired) is None ==> forall|i: int| 0 <= i < options.len() ==> options[i] == 0,
{
    lemma_max_positive(options);
}

proof fn lemma_max_positive(s: Seq<u32>)
    ensures
        max_positive(s) matches Some(m) ==> m > 0 && s.contains(m) && forall|i: int| 0 <= i < s.len() ==> s[i] <= m,
        max_positive(s) is None ==> forall|i: int| 0 <= i < s.len() ==> s[i] == 0,
    decreases s.len(),
{
    if s.len() > 0 {
        let t = s.drop_last();
        lemma_max_positive(t);
        assert forall|i: int| 0 <= i < t.len() implies t[i] == s[i] by {}
        match max_positive(t) {
            Some(m) => {
                let k = choose|k: int| 0 <= k < t.len() && t[k] == m;
                assert(s[k] == m);
            },
            None => {},
        }
        assert(s[s.len() - 1] == s.last());
    }
}

// ---------------------------------------------------------------------------
// Page diagnostics.
/// Why a ticket page could not be used.
pub open spec fn ticket_page_failure(html: Seq<char>, final_url: Seq<char>) -> Seq<char> {
    let lower = unicode_lowercase(html);
    if contains(lower, "sold out"@) || contains(html, "已售完"@) {
        "此區已售完"@
    } else if login_required(html, final_url) {
        "cookie 過期，需要重新登入"@
    } else if contains(html, "Browsing Activity"@) || contains(lower, "unusual behavior"@) {
        "IP 被封鎖 (Browsing Activity Paused)"@
    } else if contains(html, "cf-browser-verification"@) || contains(html, "challenge-platform"@) {
        "Cloudflare challenge"@
    } else if contains(final_url, "/ticket/area/"@) {
        "被踢回選區頁（非票頁）"@
    } else {
        "未知票頁錯誤（HTML "@ + decimal(utf8_len(html) as nat) + " bytes）"@
    }
}

pub fn classify_ticket_page_failure(html: &str, final_url: &str) -> (r: String)
    ensures
        r@ == ticket_page_failure(html@, final_url@),
{
    let h = chars_of(html);
    let u = chars_of(final_url);
    let lower = to_lowercase(&h);
    if contains_exec(&lower, &chars_of("sold out")) || contains_exec(&h, &chars_of("已售完")) {
        "此區已售完".to_owned()
    } else if login_required_chars(&h, &u) {
        "cookie 過期，需要重新登入".to_owned()
    } else if contains_exec(&h, &chars_of("Browsing Activity")) || contains_exec(&lower, &chars_of("unusual behavior")) {
        "IP 被封鎖 (Browsing Activity Paused)".to_owned()
    } else if contains_exec(&h, &chars_of("cf-browser-verification")) || contains_exec(&h, &chars_of("challenge-platform")) {
        "Cloudflare challenge".to_owned()
    } else if contains_exec(&u, &chars_of("/ticket/area/")) {
        "被踢回選區頁（非票頁）".to_owned()
    } else {
        let n = crate::text::byte_pos_exec(&h, h.len());
        proof {
            assert(h@.take(h@.len() as int) =~= h@);
        }
        let digits = decimal_chars(n);
        crate::text::concat3("未知票頁錯誤（HTML ", &digits, " bytes）")
    }
}


// ---------------------------------------------------------------------------
// Error text of a page: the contents of the first element of class
// help-block, alert, error or warning (the pattern
// `(?is)class=["'](?:help-block|alert|error|warning)["'][^>]*>(.*?)</(?:div|span)>`),
// with tags and runs of whitespace replaced by single spaces.
pub open spec fn error_class_word(h: Seq<char>, p: int) -> Option<int> {
    if ci_matches_at(h, p, "help-block"@) {
        Some("help-block"@.len() as int)
    } else if ci_matches_at(h, p, "alert"@) {
        Some("alert"@.len() as int)
    } else if ci_matches_at(h, p, "error"@) {
        Some("error"@.len() as int)
    } else if ci_matches_at(h, p, "warning"@) {
        Some("warning"@.len() as int)
    } else {
        None
    }
}

pub open spec fn close_tag_pred(h: Seq<char>) -> spec_fn(int) -> bool {
    |p: int| ci_matches_at(h, p, "</div>"@) || ci_matches_at(h, p, "</span>"@)
}

/// The captured span of a match starting at `i`.
pub open spec fn error_capture_at(h: Seq<char>, i: int) -> Option<(int, int)> {
    if ci_matches_at(h, i, "class="@) && i + 6 < h.len() && is_quote(h[i + 6]) {
        match error_class_word(h, i + 7) {
            Some(w) => {
                let q = i + 7 + w;
                if q < h.len() && is_quote(h[q]) {
                    match find_char_from(h, '>', q + 1) {
                        Some(g) => match first_in(g + 1, h.len() as int, close_tag_pred(h)) {
                            Some(c) => Some((g + 1, c)),
                            None => None,
                        },
                        None => None,
                    }
                } else {
                    None
                }
            },
            None => None,
        }
    } else {
        None
    }
}

pub open spec fn error_start_pred(h: Seq<char>) -> spec_fn(int) -> bool {
    |i: int| error_capture_at(h, i) is Some
}

/// The capture of the leftmost match.
pub open spec fn error_capture(h: Seq<char>) -> Option<(int, int)> {
    match first_in(0, h.len() as int, error_start_pred(h)) {
        Some(i) => error_capture_at(h, i),
        None => None,
    }
}

pub open spec fn error_message(h: Seq<char>) -> Option<Seq<char>> {
    match error_capture(h) {
        Some((a, b)) => {
            let t = collapse_ws(crate::html::strip_tags(replace_char(h.subrange(a, b), '\n', ' ')));
            if t.len() > 0 {
                Some(t)
            } else {
                None
            }
        },
        None => None,
    }
}

fn error_class_word_exec(h: &Vec<char>, p: usize) -> (r: Option<usize>)
    ensures
        opt_int(r) == error_class_word(h@, p as int),
{
    proof {
        reveal_strlit("help-block");
        reveal_strlit("alert");
        reveal_strlit("error");
        reveal_strlit("warning");
    }
    if ci_matches_at_exec(h, p, &chars_of("help-block")) {
        Some(10)
    } else if ci_matches_at_exec(h, p, &chars_of("alert")) {
        Some(5)
    } else if ci_matches_at_exec(h, p, &chars_of("error")) {
        Some(5)
    } else if ci_matches_at_exec(h, p, &chars_of("warning")) {
        Some(7)
    } else {
        None
    }
}

fn error_capture_at_exec(h: &Vec<char>, i: usize) -> (r: Option<(usize, usize)>)
    ensures
        match r {
            Some((a, b)) => error_capture_at(h@, i as int) == Some((a as int, b as int)) && a <= b <= h@.len(),
            None => error_capture_at(h@, i as int) is None,
        },
{
    proof {
        reveal_strlit("class=");
    }
    let cls = chars_of("class=");
    if !(i < h.len() && h.len() - i > 6) {
        return None;
    }
    if !(ci_matches_at_exec(h, i, &cls) && crate::text::is_quote_exec(h[i + 6])) {
        return None;
    }
    let w = match error_class_word_exec(h, i + 7) {
        Some(w) => w,
        None => return None,
    };
    let q = i + 7 + w;
    if !(q < h.len() && crate::text::is_quote_exec(h[q])) {
        return None;
    }
    let g = match find_char_from_exec(h, '>', q + 1) {
        Some(g) => g,
        None => return None,
    };
    proof {
        lemma_first_in(q + 1, h@.len() as int, crate::text::char_pred(h@, '>'));
    }
    let div = chars_of("</div>");
    let span = chars_of("</span>");
    let ghost tail = first_in(g + 1, h@.len() as int, close_tag_pred(h@));
    assert(error_capture_at(h@, i as int) == match tail {
        Some(c) => Some((g + 1, c)),
        None => None,
    });
    let mut c = g + 1;
    while c < h.len()
        invariant
            g < h@.len(),
            tail == first_in(g + 1, h@.len() as int, close_tag_pred(h@)),
            error_capture_at(h@, i as int) == match tail {
                Some(c) => Some((g + 1, c)),
                None => None,
            },
            g + 1 <= c <= h@.len(),
            div@ == "</div>"@,
            span@ == "</span>"@,
            forall|j: int| g + 1 <= j < c ==> !(#[trigger] close_tag_pred(h@)(j)),
        decreases h@.len() - c,
    {
        if ci_matches_at_exec(h, c, &div) || ci_matches_at_exec(h, c, &span) {
            proof {
                lemma_first_in_found(g + 1, h@.len() as int, close_tag_pred(h@), c as int);
            }
            return Some((g + 1, c));
        }
        c = c + 1;
    }
    proof {
        lemma_first_in_none(g + 1, h@.len() as int, close_tag_pred(h@));
    }
    None
}

/// The error text shown on a page, if any.
pub fn extract_error_message(html: &str) -> (r: Option<String>)
    ensures
        match r {
            Some(t) => error_message(html@) == Some(t@),
            None => error_message(html@) is None,
        },
{
    let h = chars_of(html);
    let mut i: usize = 0;
    while i < h.len()
        invariant
            h@ == html@,
            i <= h@.len(),
            forall|j: int| 0 <= j < i ==> !(#[trigger] error_start_pred(h@)(j)),
        decreases h@.len() - i,
    {
        match error_capture_at_exec(&h, i) {
            Some((a, b)) => {
                proof {
                    lemma_first_in_found(0, h@.len() as int, error_start_pred(h@), i as int);
                }
                let raw = sub_chars(&h, a, b);
                let flat = replace_char_exec(&raw, '\n', ' ');
                let stripped = crate::html::strip_tags_exec(&flat);
                let text = collapse_ws_exec(&stripped);
                if text.len() > 0 {
                    return Some(string_of(&text));
                }
                return None;
            },
            None => {},
        }
        i = i + 1;
    }
    proof {
        lemma_first_in_none(0, h@.len() as int, error_start_pred(h@));
    }
    None
}


// ---------------------------------------------------------------------------
// Laws.
/// Making a URL absolute twice changes nothing.
pub proof fn lemma_normalize_url_idempotent(u: Seq<char>)
    ensures
        normalized_url(normalized_url(u)) == normalized_url(u),
{
    reveal_strlit("https://");
    reveal_strlit("http://");
    reveal_strlit("https://tixcraft.com");
    reveal_strlit("https://tixcraft.com/");
    let n = normalized_url(u);
    if !(crate::text::starts_with(u, "http://"@) || crate::text::starts_with(u, "https://"@)) {
        assert(n.subrange(0, 8) =~= "https://"@);
    }
}

proof fn lemma_selectable_not_skipped(areas: Seq<(Seq<char>, Seq<char>)>)
    ensures
        forall|i: int| 0 <= i < selectable(areas).len() ==> {
            &&& !skipped_area((#[trigger] selectable(areas)[i]).1)
            &&& areas.contains(selectable(areas)[i])
        },
    decreases areas.len(),
{
    if areas.len() > 0 {
        let t = areas.drop_last();
        lemma_selectable_not_skipped(t);
        let r = selectable(t);
        assert forall|i: int| 0 <= i < r.len() implies areas.contains(#[trigger] r[i]) by {
            let k = choose|k: int| 0 <= k < t.len() && t[k] == r[i];
            assert(areas[k] == t[k]);
        }
        assert(areas[areas.len() - 1] == areas.last());
        if !skipped_area(areas.last().1) {
            assert forall|i: int| 0 <= i < r.push(areas.last()).len() implies {
                &&& !skipped_area((#[trigger] r.push(areas.last())[i]).1)
                &&& areas.contains(r.push(areas.last())[i])
            } by {
                if i < r.len() {
                    assert(r.push(areas.last())[i] == r[i]);
                }
            }
        }
    }
}

/// The area the watch buys is never a skipped one (wheelchair or standing
/// areas): it is one of the page's areas whose text is not skipped.
pub proof fn lemma_chosen_area_is_selectable(areas: Seq<(Seq<char>, Seq<char>)>, kw: Seq<char>)
    requires
        selectable(areas).len() > 0,
    ensures
        !skipped_area(chosen_area(selectable(areas), kw).1),
        areas.contains(chosen_area(selectable(areas), kw)),
{
    let sel = selectable(areas);
    lemma_selectable_not_skipped(areas);
    crate::text::lemma_first_in(0, sel.len() as int, area_keyword_pred(sel, kw));
    let i = if trim(kw).len() > 0 {
        match first_in(0, sel.len() as int, area_keyword_pred(sel, kw)) {
            Some(i) => i,
            None => 0,
        }
    } else {
        0
    };
    assert(chosen_area(sel, kw) == sel[i]);
}

} // verus!
