//! What the HTTP client exchanges with the library: responses as plain
//! values, the cookie texts it seeds its cookie store with, and the rules for
//! following redirects.

use vstd::prelude::*;
use crate::cookies::CookieEntry;
use crate::text::{append_chars, chars_of, seq_eq_exec, string_of, trim, trim_exec};

verus! {

/// A text response: status, the URL it came from, its `Location` and
/// `Content-Type` headers, and its body.
#[derive(Debug)]
pub struct ApiTextResponse {
    pub status: u16,
    pub final_url: String,
    pub location: Option<String>,
    pub content_type: Option<String>,
    pub body: String,
}

/// A binary response (the captcha image).
#[derive(Debug)]
pub struct ApiBinaryResponse {
    pub status: u16,
    pub content_type: Option<String>,
    pub body: Vec<u8>,
}

/// The User-Agent the client presents (Chrome 133 on macOS).
pub fn default_api_user_agent() -> (r: String)
    ensures
        r@ == "Mozilla/5.0 (Macintosh; Intel Mac OS X 10_15_7) AppleWebKit/537.36 (KHTML, like Gecko) Chrome/133.0.0.0 Safari/537.36"@,
{
    "Mozilla/5.0 (Macintosh; Intel Mac OS X 10_15_7) AppleWebKit/537.36 (KHTML, like Gecko) Chrome/133.0.0.0 Safari/537.36".to_owned()
}

// ---------------------------------------------------------------------------
// Cookie seeding.
/// A cookie's path, trimmed; `/` when blank.
pub open spec fn cookie_path(p: Seq<char>) -> Seq<char> {
    if trim(p).len() == 0 {
        "/"@
    } else {
        trim(p)
    }
}

pub fn normalize_cookie_path(path: &str) -> (r: String)
    ensures
        r@ == cookie_path(path@),
{
    let t = trim_exec(&chars_of(path));
    if t.len() == 0 {
        "/".to_owned()
    } else {
        string_of(&t)
    }
}

/// `s.trim_start_matches(c)`.
pub open spec fn trim_start_char(s: Seq<char>, c: char) -> Seq<char>
    decreases s.len(),
{
    if s.len() > 0 && s[0] == c {
        trim_start_char(s.drop_first(), c)
    } else {
        s
    }
}

fn trim_start_char_exec(s: &Vec<char>, c: char) -> (r: Vec<char>)
    ensures
        r@ == trim_start_char(s@, c),
{
    let mut k: usize = 0;
    assert(s@.subrange(0, s@.len() as int) =~= s@);
    while k < s.len() && s[k] == c
        invariant
            k <= s@.len(),
            trim_start_char(s@.subrange(k as int, s@.len() as int), c) == trim_start_char(s@, c),
        decreases s@.len() - k,
    {
        assert(s@.subrange(k as int, s@.len() as int).drop_first() =~= s@.subrange(k + 1, s@.len() as int));
        k = k + 1;
    }
    if k < s.len() {
        assert(s@.subrange(k as int, s@.len() as int)[0] == s@[k as int]);
    }
    crate::text::sub_chars(s, k, s.len())
}

/// The host a cookie domain names: trimmed, without leading dots.
pub open spec fn cookie_host(domain: Seq<char>) -> Seq<char> {
    trim_start_char(trim(domain), '.')
}

pub fn cookie_host_of(domain: &str) -> (r: String)
    ensures
        r@ == cookie_host(domain@),
{
    string_of(&trim_start_char_exec(&trim_exec(&chars_of(domain)), '.'))
}

/// The URL a cookie is stored under: `https://` + host (`tixcraft.com` when
/// the domain is blank) + path.
pub open spec fn cookie_seed_url_text(c: CookieEntry) -> Seq<char> {
    let host = if cookie_host(c.domain@).len() == 0 { "tixcraft.com"@ } else { cookie_host(c.domain@) };
    "https://"@ + host + cookie_path(c.path@)
}

pub fn cookie_seed_url(cookie: &CookieEntry) -> (r: String)
    ensures
        r@ == cookie_seed_url_text(*cookie),
{
    let host = trim_start_char_exec(&trim_exec(&chars_of(cookie.domain.as_str())), '.');
    let host = if host.len() == 0 { chars_of("tixcraft.com") } else { host };
    let path = chars_of(normalize_cookie_path(cookie.path.as_str()).as_str());
    let mut out = chars_of("https://");
    append_chars(&mut out, &host);
    append_chars(&mut out, &path);
    string_of(&out)
}

/// Whether the `Set-Cookie` line names the domain: not for a blank host,
/// `localhost`, or an IP address (`host_is_ip` tells whether the host parses
/// as one).
pub open spec fn includes_domain(domain: Seq<char>, host_is_ip: bool) -> bool {
    cookie_host(domain).len() > 0 && cookie_host(domain) != "localhost"@ && !host_is_ip
}

pub fn should_include_cookie_domain(domain: &str, host_is_ip: bool) -> (r: bool)
    ensures
        r == includes_domain(domain@, host_is_ip),
{
    let host = trim_start_char_exec(&trim_exec(&chars_of(domain)), '.');
    host.len() > 0 && !seq_eq_exec(&host, &chars_of("localhost")) && !host_is_ip
}

/// The `Set-Cookie` text a cookie is seeded with.
pub open spec fn cookie_header_text(c: CookieEntry, host_is_ip: bool) -> Seq<char> {
    let base = c.name@ + "="@ + c.value@ + "; Path="@ + cookie_path(c.path@);
    if includes_domain(c.domain@, host_is_ip) {
        base + "; Domain="@ + trim(c.domain@)
    } else {
        base
    }
}

pub fn cookie_header(cookie: &CookieEntry, host_is_ip: bool) -> (r: String)
    ensures
        r@ == cookie_header_text(*cookie, host_is_ip),
{
    let mut out = chars_of(cookie.name.as_str());
    append_chars(&mut out, &chars_of("="));
    append_chars(&mut out, &chars_of(cookie.value.as_str()));
    append_chars(&mut out, &chars_of("; Path="));
    append_chars(&mut out, &chars_of(normalize_cookie_path(cookie.path.as_str()).as_str()));
    if should_include_cookie_domain(cookie.domain.as_str(), host_is_ip) {
        append_chars(&mut out, &chars_of("; Domain="));
        append_chars(&mut out, &trim_exec(&chars_of(cookie.domain.as_str())));
    }
    string_of(&out)
}

// ---------------------------------------------------------------------------
// Redirects.
/// 301, 302, 303, 307 and 308 are followed.
pub open spec fn follows_redirect(status: u16) -> bool {
    status == 301 || status == 302 || status == 303 || status == 307 || status == 308
}

pub fn should_follow_redirect(status: u16) -> (r: bool)
    ensures
        r == follows_redirect(status),
{
    status == 301 || status == 302 || status == 303 || status == 307 || status == 308
}

#[verifier::external_type_specification]
#[verifier::external_body]
pub struct ExUrlParseError(url::ParseError);

/// The serialization of `Url::parse(base)` joined with `location`
/// (`Url::join`), `None` where either fails: a function of the two texts.
pub uninterp spec fn url_joined(base: Seq<char>, location: Seq<char>) -> Option<Seq<char>>;

/// Calls `url::Url::parse` on `base` and `Url::join` with `location`, and
/// serializes the result; fails exactly where `url_joined` is `None`.
#[verifier::external_body]
fn join_url(base: &str, location: &str) -> (r: Result<String, url::ParseError>)
    ensures
        match r {
            Ok(s) => url_joined(base@, location@) == Some(s@),
            Err(_) => url_joined(base@, location@) is None,
        },
{
    let base = url::Url::parse(base)?;
    Ok(base.join(location)?.to_string())
}

/// A redirect target that is not a URL.
#[derive(Debug, Clone, Copy, PartialEq, Eq)]
pub enum RedirectError {
    BadLocation,
}

/// Where a `Location` header leads from the page it came from.
pub fn resolve_redirect_url(base: &str, location: &str) -> (r: Result<String, RedirectError>)
    ensures
        match r {
            Ok(s) => url_joined(base@, location@) == Some(s@),
            Err(_) => url_joined(base@, location@) is None,
        },
{
    match join_url(base, location) {
        Ok(s) => Ok(s),
        Err(_) => Err(RedirectError::BadLocation),
    }
}

/// The most redirects a fetch follows.
pub open spec fn max_redirects() -> u32 {
    10
}

/// What to do with a response while fetching a page.
#[derive(Debug)]
pub enum ChaseStep {
    /// The response is the answer.
    Done,
    /// Fetch `url` next, sending `referer`.
    Follow { url: String, referer: String },
    /// The redirect limit was reached.
    TooManyRedirects,
    /// The `Location` header is not a URL.
    BadLocation,
}

/// A fetch that follows redirects (when asked to) up to the limit.
#[derive(Debug)]
pub struct RedirectChase {
    follow: bool,
    hops: u32,
}

impl RedirectChase {
    pub closed spec fn follows(&self) -> bool {
        self.follow
    }

    pub closed spec fn hops(&self) -> u32 {
        self.hops
    }

    pub fn new(follow_redirects: bool) -> (r: Self)
        ensures
            r.follows() == follow_redirects,
            r.hops() == 0,
    {
        RedirectChase { follow: follow_redirects, hops: 0 }
    }

    /// The next step after a response: a redirect is followed while the
    /// limit allows, from the URL the response came from.
    pub fn on_response(&mut self, status: u16, location: &Option<String>, final_url: &str) -> (r: ChaseStep)
        requires
            old(self).hops() <= max_redirects(),
        ensures
            final(self).follows() == old(self).follows(),
            final(self).hops() <= max_redirects(),
            !old(self).follows() || !follows_redirect(status) || location is None ==> r is Done && *final(self) == *old(self),
            old(self).follows() && follows_redirect(status) && location is Some ==> {
                if old(self).hops() == max_redirects() {
                    r is TooManyRedirects
                } else {
                    match url_joined(final_url@, location->0@) {
                        Some(next) => r matches ChaseStep::Follow { url, referer } && url@ == next
                            && referer@ == final_url@ && final(self).hops() == old(self).hops() + 1,
                        None => r is BadLocation,
                    }
                }
            },
    {
        if !self.follow || !should_follow_redirect(status) {
            return ChaseStep::Done;
        }
        match location {
            None => ChaseStep::Done,
            Some(loc) => {
                if self.hops == 10 {
                    return ChaseStep::TooManyRedirects;
                }
                match resolve_redirect_url(final_url, loc.as_str()) {
                    Ok(url) => {
                        self.hops = self.hops + 1;
                        ChaseStep::Follow { url, referer: final_url.to_owned() }
                    },
                    Err(_) => ChaseStep::BadLocation,
                }
            },
        }
    }
}

} // verus!
