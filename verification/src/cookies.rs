//! Cookie entries read from the cookie file, and which of them are kept.

use vstd::prelude::*;
use crate::text::{ascii_lower, ascii_lower_exec, chars_of, contains, contains_exec, trim, trim_exec};

verus! {

/// One cookie of the cookie file.
#[derive(Debug, PartialEq, Eq)]
pub struct CookieEntry {
    pub name: String,
    pub value: String,
    pub domain: String,
    pub path: String,
}

impl Clone for CookieEntry {
    fn clone(&self) -> (r: Self)
        ensures
            r == *self,
    {
        CookieEntry {
            name: self.name.clone(),
            value: self.value.clone(),
            domain: self.domain.clone(),
            path: self.path.clone(),
        }
    }
}

/// The path a cookie gets when the file gives none.
pub fn default_cookie_path() -> (r: String)
    ensures
        r@ == "/"@,
{
    "/".to_owned()
}

/// Host-only cookies (blank domain) and tixcraft cookies are kept.
pub open spec fn keeps_domain(domain: Seq<char>) -> bool {
    let d = ascii_lower(trim(domain));
    d.len() == 0 || contains(d, "tixcraft"@)
}

pub fn keep_cookie(cookie: &CookieEntry) -> (r: bool)
    ensures
        r == keeps_domain(cookie.domain@),
{
    let d = ascii_lower_exec(&trim_exec(&chars_of(cookie.domain.as_str())));
    d.len() == 0 || contains_exec(&d, &chars_of("tixcraft"))
}

/// The kept cookies, in file order.
pub open spec fn kept_cookies(entries: Seq<CookieEntry>) -> Seq<CookieEntry>
    decreases entries.len(),
{
    if entries.len() == 0 {
        seq![]
    } else {
        let rest = kept_cookies(entries.drop_last());
        if keeps_domain(entries.last().domain@) {
            rest.push(entries.last())
        } else {
            rest
        }
    }
}

pub fn filter_cookies(entries: Vec<CookieEntry>) -> (r: Vec<CookieEntry>)
    ensures
        r@ == kept_cookies(entries@),
{
    let mut out: Vec<CookieEntry> = Vec::new();
    let mut i: usize = 0;
    while i < entries.len()
        invariant
            i <= entries@.len(),
            out@ == kept_cookies(entries@.take(i as int)),
        decreases entries@.len() - i,
    {
        assert(entries@.take(i + 1).drop_last() =~= entries@.take(i as int));
        if keep_cookie(&entries[i]) {
            out.push(entries[i].clone());
        }
        i = i + 1;
    }
    assert(entries@.take(entries@.len() as int) =~= entries@);
    out
}

/// Filtering keeps exactly the cookies of kept domains: every cookie that
/// comes out went in, and filtering twice changes nothing.
pub proof fn lemma_filter_cookies_idempotent(entries: Seq<CookieEntry>)
    ensures
        kept_cookies(kept_cookies(entries)) == kept_cookies(entries),
        forall|i: int| 0 <= i < kept_cookies(entries).len() ==> keeps_domain(#[trigger] kept_cookies(entries)[i].domain@),
    decreases entries.len(),
{
    if entries.len() > 0 {
        let t = entries.drop_last();
        lemma_filter_cookies_idempotent(t);
        let k = kept_cookies(t);
        if keeps_domain(entries.last().domain@) {
            assert(k.push(entries.last()).drop_last() =~= k);
        }
    }
}

} // verus!
