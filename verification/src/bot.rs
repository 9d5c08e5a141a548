//! The API-mode bot as a state machine: the state it keeps between requests
//! and, for each response, what it does next. The HTTP requests, the captcha
//! helper and the timing are performed by the caller.

use vstd::prelude::*;
use crate::config::{AppConfig, EventConfig, SessionConfig};
use crate::cookies::CookieEntry;
use crate::fields::{is_sorted_body, FormFields};
use crate::http::{default_api_user_agent, ApiTextResponse};
use crate::parser::{area_entry_views, area_list, game_list, login_required, normalized_url, opt_view, pair_views, AreaEntry};
use crate::proxy::{expands_to, ProxyPool};
use crate::text::{append_chars, chars_of, concat3, contains, decimal, decimal_chars, is_blank, string_of, trim};
use crate::tixcraft::{
    blocked_status, chosen_area, is_blocked_status, normalize_url, select_area, selectable, verify_url,
    filter_selectable_areas,
};

verus! {

// ---------------------------------------------------------------------------
// Watch statistics.
/// Response counters of the watch loop (the latency sum is kept by the
/// caller, which measures it).
#[derive(Debug)]
pub struct WatchStats {
    pub ok: u64,
    pub blocked: u64,
    pub total: u64,
}

impl WatchStats {
    pub open spec fn wf(&self) -> bool {
        self.ok + self.blocked == self.total
    }

    pub fn new() -> (r: Self)
        ensures
            r.ok == 0 && r.blocked == 0 && r.total == 0,
    {
        WatchStats { ok: 0, blocked: 0, total: 0 }
    }

    /// Counts one response: 401 and 403 as blocked, anything else as ok.
    pub fn record(&mut self, status: u16)
        requires
            old(self).wf(),
            old(self).total < u64::MAX,
        ensures
            final(self).wf(),
            final(self).total == old(self).total + 1,
            blocked_status(status) ==> final(self).blocked == old(self).blocked + 1 && final(self).ok == old(self).ok,
            !blocked_status(status) ==> final(self).ok == old(self).ok + 1 && final(self).blocked == old(self).blocked,
    {
        self.total = self.total + 1;
        if is_blocked_status(status) {
            self.blocked = self.blocked + 1;
        } else {
            self.ok = self.ok + 1;
        }
    }

    /// Statistics are reported every 50 responses.
    pub fn report_due(&self) -> (r: bool)
        ensures
            r == (self.total > 0 && self.total % 50 == 0),
    {
        self.total > 0 && self.total % 50 == 0
    }
}

impl Default for WatchStats {
    fn default() -> (r: Self)
        ensures
            r.ok == 0 && r.blocked == 0 && r.total == 0,
    {
        WatchStats::new()
    }
}

// ---------------------------------------------------------------------------
// Plans, probes and targets.
/// What a dry run reports before any request.
#[derive(Debug)]
pub struct BotPlan {
    pub event_name: String,
    pub event_url: String,
    pub session_name: String,
    pub session_profile: String,
    pub cookie_file: String,
    pub browser_api_mode: String,
    pub proxy: Option<String>,
    pub user_agent: String,
}

/// What a probe of the event page reports.
#[derive(Debug)]
pub struct ProbeResult {
    pub status: u16,
    pub final_url: String,
    pub content_type: String,
    pub body_len: usize,
}

fn string_or_empty(o: &Option<String>) -> (r: String)
    ensures
        match o {
            Some(s) => r@ == s@,
            None => r@ == Seq::<char>::empty(),
        },
{
    match o {
        Some(s) => s.clone(),
        None => String::new(),
    }
}

fn clone_opt(o: &Option<String>) -> (r: Option<String>)
    ensures
        opt_view(r) == opt_view(*o),
{
    match o {
        Some(s) => Some(s.clone()),
        None => None,
    }
}

pub fn probe_result(resp: &ApiTextResponse) -> (r: ProbeResult)
    ensures
        r.status == resp.status,
        r.final_url@ == resp.final_url@,
        r.content_type@ == match resp.content_type {
            Some(c) => c@,
            None => Seq::<char>::empty(),
        },
        r.body_len == vstd::utf8::encode_utf8(resp.body@).len() as usize,
{
    ProbeResult {
        status: resp.status,
        final_url: resp.final_url.clone(),
        content_type: string_or_empty(&resp.content_type),
        body_len: resp.body.as_str().len(),
    }
}

/// A resolved target as a dry run lists it.
#[derive(Debug)]
pub struct WatchTargetPreview {
    pub keyword: String,
    pub text: String,
    pub href: String,
}

/// A game row being watched: its date text and the area page polled.
#[derive(Debug)]
pub struct WatchTarget {
    pub keyword: String,
    pub text: String,
    pub href: String,
    pub visits: u64,
}

impl Clone for WatchTarget {
    fn clone(&self) -> (r: Self)
        ensures
            r == *self,
    {
        WatchTarget { keyword: self.keyword.clone(), text: self.text.clone(), href: self.href.clone(), visits: self.visits }
    }
}

impl WatchTarget {
    pub fn preview(&self) -> (r: WatchTargetPreview)
        ensures
            r.keyword == self.keyword,
            r.text == self.text,
            r.href == self.href,
    {
        WatchTargetPreview { keyword: self.keyword.clone(), text: self.text.clone(), href: self.href.clone() }
    }
}

/// A text for display: `-` when blank.
pub fn empty_as_dash(value: &str) -> (r: &str)
    ensures
        r@ == if trim(value@).len() == 0 { "-"@ } else { value@ },
{
    if is_blank(&chars_of(value)) {
        "-"
    } else {
        value
    }
}

// ---------------------------------------------------------------------------
// Cookie file.
/// `Path::join` of a relative name onto a directory (Unix): a separator is
/// added unless the directory is empty or already ends with one.
pub open spec fn path_join(base: Seq<char>, name: Seq<char>) -> Seq<char> {
    if base.len() == 0 {
        name
    } else if base.last() == '/' {
        base + name
    } else {
        base + "/"@ + name
    }
}

pub fn path_join_exec(base: &Vec<char>, name: &Vec<char>) -> (r: Vec<char>)
    ensures
        r@ == path_join(base@, name@),
{
    let mut out = crate::text::sub_chars(base, 0, base.len());
    assert(base@.subrange(0, base@.len() as int) =~= base@);
    if base.len() > 0 && base[base.len() - 1] != '/' {
        append_chars(&mut out, &chars_of("/"));
    }
    append_chars(&mut out, name);
    out
}

/// The cookie file of a session: its own file when set; none for a named
/// session among several (the shared file belongs to the default session);
/// otherwise `tixcraft_cookies.json` beside the config.
pub open spec fn cookie_file_for(config: AppConfig, session: SessionConfig) -> Option<Seq<char>> {
    if trim(session.cookie_file@).len() > 0 {
        Some(session.cookie_file@)
    } else if config.sessions@.len() > 1 && session.name@ != "default"@ {
        None
    } else {
        Some(path_join(config.base_dir@, "tixcraft_cookies.json"@))
    }
}

/// A named session among several never falls back to the shared cookie
/// file: it uses its own file or none.
pub proof fn lemma_named_sessions_do_not_share_cookies(config: AppConfig, session: SessionConfig)
    requires
        config.sessions@.len() > 1,
        session.name@ != "default"@,
    ensures
        cookie_file_for(config, session) matches Some(f) ==> f == session.cookie_file@,
{
}

pub fn resolve_cookie_file(config: &AppConfig, session: &SessionConfig) -> (r: Option<String>)
    ensures
        opt_view(r) == cookie_file_for(*config, *session),
{
    if !is_blank(&chars_of(session.cookie_file.as_str())) {
        return Some(session.cookie_file.clone());
    }
    if config.sessions.len() > 1 && !crate::text::seq_eq_exec(&chars_of(session.name.as_str()), &chars_of("default")) {
        return None;
    }
    let base = chars_of(config.base_dir.as_str());
    let joined = path_join_exec(&base, &chars_of("tixcraft_cookies.json"));
    Some(string_of(&joined))
}

// ---------------------------------------------------------------------------
// The round-robin over watch targets.
/// The targets being watched, the one whose turn it is, and the round count.
#[derive(Debug)]
pub struct WatchRound {
    targets: Vec<WatchTarget>,
    index: usize,
    round: u64,
}

impl WatchRound {
    pub closed spec fn targets_view(&self) -> Seq<WatchTarget> {
        self.targets@
    }

    pub closed spec fn index_view(&self) -> usize {
        self.index
    }

    pub closed spec fn round_view(&self) -> u64 {
        self.round
    }

    pub open spec fn wf(&self) -> bool {
        self.targets_view().len() > 0 && self.index_view() < self.targets_view().len()
    }

    pub open spec fn current_view(&self) -> WatchTarget {
        self.targets_view()[self.index_view() as int]
    }

    pub fn new(targets: Vec<WatchTarget>) -> (r: Self)
        requires
            targets@.len() > 0,
        ensures
            r.wf(),
            r.targets_view() == targets@,
            r.index_view() == 0,
            r.round_view() == 0,
    {
        WatchRound { targets, index: 0, round: 0 }
    }

    pub fn targets(&self) -> (r: &Vec<WatchTarget>)
        ensures
            r@ == self.targets_view(),
    {
        &self.targets
    }

    pub fn round(&self) -> (r: u64)
        ensures
            r == self.round_view(),
    {
        self.round
    }

    /// Starts a round on the current target: the round count and the
    /// target's visit count go up by one; returns the target.
    pub fn begin(&mut self) -> (r: WatchTarget)
        requires
            old(self).wf(),
            old(self).round_view() < u64::MAX,
            old(self).current_view().visits < u64::MAX,
        ensures
            final(self).wf(),
            final(self).index_view() == old(self).index_view(),
            final(self).round_view() == old(self).round_view() + 1,
            r.visits == old(self).current_view().visits + 1,
            r.keyword == old(self).current_view().keyword,
            r.text == old(self).current_view().text,
            r.href == old(self).current_view().href,
            final(self).targets_view() == old(self).targets_view().update(old(self).index_view() as int, r),
    {
        self.round = self.round + 1;
        let mut t = self.targets[self.index].clone();
        t.visits = t.visits + 1;
        let r = t.clone();
        self.targets.set(self.index, t);
        r
    }

    /// Points the current target at another area page.
    pub fn set_current_href(&mut self, href: String)
        requires
            old(self).wf(),
        ensures
            final(self).wf(),
            final(self).index_view() == old(self).index_view(),
            final(self).round_view() == old(self).round_view(),
            final(self).targets_view() == old(self).targets_view().update(
                old(self).index_view() as int,
                WatchTarget { href, ..old(self).current_view() },
            ),
    {
        let mut t = self.targets[self.index].clone();
        t.href = href;
        self.targets.set(self.index, t);
    }

    /// Whether `begin` may be called: the counters have room.
    pub fn can_begin(&self) -> (r: bool)
        ensures
            r == (self.wf() && self.round_view() < u64::MAX && self.current_view().visits < u64::MAX),
    {
        self.targets.len() > 0 && self.index < self.targets.len() && self.round < u64::MAX
            && self.targets[self.index].visits < u64::MAX
    }

    /// Moves the turn to the next target, wrapping around.
    pub fn advance(&mut self)
        requires
            old(self).wf(),
        ensures
            final(self).wf(),
            final(self).targets_view() == old(self).targets_view(),
            final(self).round_view() == old(self).round_view(),
            final(self).index_view() == (old(self).index_view() + 1) % (old(self).targets_view().len() as int),
    {
        let len = self.targets.len();
        self.index = (self.index + 1) % len;
    }
}

/// Every target gets its turn: from any position, `n` consecutive turns
/// over `n` targets visit each target once.
pub proof fn lemma_watch_turns_cover_targets(index: int, n: int, j: int)
    requires
        0 <= index < n,
        0 <= j < n,
    ensures
        exists|k: int| 0 <= k < n && #[trigger] crate::proxy::rotation_slot(index + k, n) == j,
{
    crate::proxy::lemma_rotation_covers_every_server(index, n, j);
}


// ---------------------------------------------------------------------------
// The bot's state.
/// The state of one API session: its configuration, proxy and cookies, the
/// watch counters, and the last error and success texts.
#[derive(Debug)]
pub struct TixcraftApiBot {
    config: AppConfig,
    event: EventConfig,
    session: SessionConfig,
    proxy_pool: ProxyPool,
    cookie_entries: Vec<CookieEntry>,
    proxy: Option<String>,
    stats: WatchStats,
    last_error: String,
    last_success_info: String,
}

impl TixcraftApiBot {
    pub closed spec fn config_view(&self) -> AppConfig {
        self.config
    }

    pub closed spec fn event_view(&self) -> EventConfig {
        self.event
    }

    pub closed spec fn session_view(&self) -> SessionConfig {
        self.session
    }

    pub closed spec fn pool_view(&self) -> ProxyPool {
        self.proxy_pool
    }

    pub closed spec fn cookies_view(&self) -> Seq<CookieEntry> {
        self.cookie_entries@
    }

    pub closed spec fn proxy_view(&self) -> Option<Seq<char>> {
        opt_view(self.proxy)
    }

    pub closed spec fn stats_view(&self) -> WatchStats {
        self.stats
    }

    pub closed spec fn error_view(&self) -> Seq<char> {
        self.last_error@
    }

    pub closed spec fn success_view(&self) -> Seq<char> {
        self.last_success_info@
    }

    pub open spec fn wf(&self) -> bool {
        self.stats_view().wf()
    }

    /// Everything but the counters and the error and success texts.
    pub open spec fn same_setup(&self, other: &Self) -> bool {
        &&& other.config_view() == self.config_view()
        &&& other.event_view() == self.event_view()
        &&& other.session_view() == self.session_view()
        &&& other.pool_view() == self.pool_view()
        &&& other.cookies_view() == self.cookies_view()
        &&& other.proxy_view() == self.proxy_view()
    }

    /// A bot for one event and session: the session's proxy (its own, or
    /// the pool's first pick), the given cookies, zero counters.
    pub fn new(config: &AppConfig, event: EventConfig, session: SessionConfig, cookie_entries: Vec<CookieEntry>) -> (r: Self)
        ensures
            r.wf(),
            r.event_view() == event,
            r.session_view() == session,
            r.cookies_view() == cookie_entries@,
            r.config_view().events@ == config.events@,
            r.config_view().deployment == config.deployment,
            r.config_view().browser == config.browser,
            r.config_view().captcha == config.captcha,
            r.config_view().notifications == config.notifications,
            r.config_view().proxy.enabled == config.proxy.enabled,
            r.config_view().proxy.rotate == config.proxy.rotate,
            crate::text::string_views(r.config_view().proxy.servers@) == crate::text::string_views(config.proxy.servers@),
            r.config_view().trace == config.trace,
            r.config_view().sessions@ == config.sessions@,
            r.config_view().ticketmaster_api_key == config.ticketmaster_api_key,
            r.config_view().base_dir == config.base_dir,
            r.stats_view().total == 0,
            r.error_view() == Seq::<char>::empty(),
            r.success_view() == Seq::<char>::empty(),
            trim(session.proxy_server@).len() > 0 ==> r.proxy_view() is Some && expands_to(session.proxy_server@, r.proxy_view()->0),
            trim(session.proxy_server@).len() == 0 ==> match crate::proxy::first_pick(config.proxy) {
                None => r.proxy_view() is None,
                Some(server) => r.proxy_view() is Some && expands_to(server, r.proxy_view()->0),
            },
    {
        let mut proxy_pool = ProxyPool::new(config.proxy.clone());
        let proxy = proxy_pool.resolve_for_session(&session);
        TixcraftApiBot {
            config: config.clone(),
            event,
            session,
            proxy_pool,
            cookie_entries,
            proxy,
            stats: WatchStats::new(),
            last_error: String::new(),
            last_success_info: String::new(),
        }
    }

    pub fn event(&self) -> (r: &EventConfig)
        ensures
            *r == self.event_view(),
    {
        &self.event
    }

    pub fn session(&self) -> (r: &SessionConfig)
        ensures
            *r == self.session_view(),
    {
        &self.session
    }

    pub fn cookie_entries(&self) -> (r: &Vec<CookieEntry>)
        ensures
            r@ == self.cookies_view(),
    {
        &self.cookie_entries
    }

    pub fn proxy(&self) -> (r: Option<String>)
        ensures
            opt_view(r) == self.proxy_view(),
    {
        clone_opt(&self.proxy)
    }

    pub fn stats(&self) -> (r: &WatchStats)
        ensures
            *r == self.stats_view(),
    {
        &self.stats
    }

    pub fn last_error(&self) -> (r: &str)
        ensures
            r@ == self.error_view(),
    {
        self.last_error.as_str()
    }

    pub fn last_success_info(&self) -> (r: &str)
        ensures
            r@ == self.success_view(),
    {
        self.last_success_info.as_str()
    }

    /// Records an error text (a failed request, a failed initialisation).
    pub fn set_last_error(&mut self, message: String)
        ensures
            old(self).same_setup(&*final(self)),
            final(self).stats_view() == old(self).stats_view(),
            final(self).success_view() == old(self).success_view(),
            final(self).error_view() == message@,
    {
        self.last_error = message;
    }

    /// What a dry run shows.
    pub fn plan(&self) -> (r: BotPlan)
        ensures
            r.event_name == self.event_view().name,
            r.event_url == self.event_view().url,
            r.session_name == self.session_view().name,
            r.session_profile == self.session_view().user_data_dir,
            r.cookie_file@ == match cookie_file_for(self.config_view(), self.session_view()) {
                Some(f) => f,
                None => Seq::<char>::empty(),
            },
            r.browser_api_mode == self.config_view().browser.api_mode,
            opt_view(r.proxy) == self.proxy_view(),
            r.user_agent@ == "Mozilla/5.0 (Macintosh; Intel Mac OS X 10_15_7) AppleWebKit/537.36 (KHTML, like Gecko) Chrome/133.0.0.0 Safari/537.36"@,
    {
        BotPlan {
            event_name: self.event.name.clone(),
            event_url: self.event.url.clone(),
            session_name: self.session.name.clone(),
            session_profile: self.session.user_data_dir.clone(),
            cookie_file: string_or_empty(&resolve_cookie_file(&self.config, &self.session)),
            browser_api_mode: self.config.browser.api_mode.clone(),
            proxy: clone_opt(&self.proxy),
            user_agent: default_api_user_agent(),
        }
    }

    /// The next proxy for a rebuilt HTTP client: the session's own, or the
    /// pool's next pick; it becomes the bot's proxy.
    pub fn rebuild_proxy(&mut self) -> (r: Option<String>)
        ensures
            opt_view(r) == final(self).proxy_view(),
            final(self).config_view() == old(self).config_view(),
            final(self).event_view() == old(self).event_view(),
            final(self).session_view() == old(self).session_view(),
            final(self).cookies_view() == old(self).cookies_view(),
            final(self).stats_view() == old(self).stats_view(),
            final(self).error_view() == old(self).error_view(),
            final(self).success_view() == old(self).success_view(),
            trim(old(self).session_view().proxy_server@).len() > 0 ==> {
                &&& final(self).pool_view() == old(self).pool_view()
                &&& r is Some
                &&& expands_to(old(self).session_view().proxy_server@, r->0@)
            },
            trim(old(self).session_view().proxy_server@).len() == 0 ==> {
                &&& old(self).pool_view().stepped(&final(self).pool_view())
                &&& match old(self).pool_view().pick() {
                    None => r is None,
                    Some(server) => r is Some && expands_to(server, r->0@),
                }
            },
    {
        let next = self.proxy_pool.resolve_for_session(&self.session);
        self.proxy = clone_opt(&next);
        next
    }
}

// ---------------------------------------------------------------------------
// The watch loop.
/// What a watch response leads to.
pub enum WatchMove {
    /// 401/403: rebuild the client (and log it when the flag says so).
    Blocked(bool),
    /// Redirected to another area page, which the target now polls.
    Relocated(Seq<char>),
    /// Redirected elsewhere: noted, polling goes on.
    Stray(Seq<char>),
    /// The login expired: the watch stops with this error.
    Abort(Seq<char>),
    /// No selectable area yet (logged when the flag says so).
    Waiting(bool),
    /// An area to buy: its URL and text.
    Buy(Seq<char>, Seq<char>),
}

pub open spec fn watch_move(area_kw: Seq<char>, visits: u64, status: u16, location: Option<Seq<char>>, body: Seq<char>, final_url: Seq<char>) -> WatchMove {
    if blocked_status(status) {
        WatchMove::Blocked(visits <= 3 || visits % 10 == 0)
    } else {
        match location {
            Some(l) => {
                let n = normalized_url(l);
                if login_required(Seq::<char>::empty(), n) {
                    WatchMove::Abort("watch 被導向登入頁，cookie 可能已過期"@)
                } else if contains(n, "/ticket/area/"@) {
                    WatchMove::Relocated(n)
                } else {
                    WatchMove::Stray(n)
                }
            },
            None => {
                if login_required(body, final_url) {
                    WatchMove::Abort("watch 收到登入頁，cookie 可能已過期"@)
                } else {
                    let areas = selectable(area_list(body).0);
                    if areas.len() == 0 {
                        WatchMove::Waiting(visits % 10 == 1)
                    } else {
                        WatchMove::Buy(chosen_area(areas, area_kw).0, chosen_area(areas, area_kw).1)
                    }
                }
            },
        }
    }
}

/// The error text a watch move records (`None`: the old one stays).
pub open spec fn watch_move_error(m: WatchMove, status: u16) -> Option<Seq<char>> {
    match m {
        WatchMove::Blocked(_) => Some("watch 收到 "@ + decimal(status as nat) + "，重建 HTTP client"@),
        WatchMove::Stray(n) => Some("watch 被導向非 area 頁面: "@ + n),
        WatchMove::Abort(e) => Some(e),
        _ => None,
    }
}

/// What the caller does after a watch response.
#[derive(Debug)]
pub enum WatchAction {
    Blocked { report: bool },
    Relocated,
    Stray,
    Abort,
    Waiting { report: bool },
    Buy { area: AreaEntry },
}

pub open spec fn action_is(a: WatchAction, m: WatchMove) -> bool {
    match m {
        WatchMove::Blocked(b) => a matches WatchAction::Blocked { report } && report == b,
        WatchMove::Relocated(_) => a is Relocated,
        WatchMove::Stray(_) => a is Stray,
        WatchMove::Abort(_) => a is Abort,
        WatchMove::Waiting(b) => a matches WatchAction::Waiting { report } && report == b,
        WatchMove::Buy(u, t) => a matches WatchAction::Buy { area } && area.url@ == u && area.text@ == t,
    }
}

impl TixcraftApiBot {
    /// Handles the response to the current target's poll: counts it, then
    /// decides as `watch_move` says, recording the error text and moving the
    /// target to a new area page where the move says so.
    pub fn on_watch_response(&mut self, round: &mut WatchRound, resp: &ApiTextResponse) -> (r: WatchAction)
        requires
            old(self).wf(),
            old(self).stats_view().total < u64::MAX,
            old(round).wf(),
        ensures
            final(self).wf(),
            final(round).wf(),
            old(self).same_setup(&*final(self)),
            final(self).success_view() == old(self).success_view(),
            final(self).stats_view().total == old(self).stats_view().total + 1,
            blocked_status(resp.status) ==> final(self).stats_view().blocked == old(self).stats_view().blocked + 1,
            !blocked_status(resp.status) ==> final(self).stats_view().ok == old(self).stats_view().ok + 1,
            ({
                let m = watch_move(
                    old(self).event_view().area_keyword@,
                    old(round).current_view().visits,
                    resp.status,
                    opt_view(resp.location),
                    resp.body@,
                    resp.final_url@,
                );
                &&& action_is(r, m)
                &&& final(self).error_view() == match watch_move_error(m, resp.status) {
                    Some(e) => e,
                    None => old(self).error_view(),
                }
                &&& final(round).index_view() == old(round).index_view()
                &&& final(round).round_view() == old(round).round_view()
                &&& match m {
                    WatchMove::Relocated(n) => final(round).targets_view().len() == old(round).targets_view().len()
                        && final(round).current_view().href@ == n
                        && final(round).current_view().keyword == old(round).current_view().keyword
                        && final(round).current_view().text == old(round).current_view().text
                        && final(round).current_view().visits == old(round).current_view().visits
                        && forall|j: int| 0 <= j < old(round).targets_view().len() && j != old(round).index_view()
                            ==> #[trigger] final(round).targets_view()[j] == old(round).targets_view()[j],
                    _ => final(round).targets_view() == old(round).targets_view(),
                }
            }),
    {
        let visits = round.targets[round.index].visits;
        self.stats.record(resp.status);
        if is_blocked_status(resp.status) {
            let digits = decimal_chars(resp.status as u128);
            self.last_error = concat3("watch 收到 ", &digits, "，重建 HTTP client");
            return WatchAction::Blocked { report: visits <= 3 || visits % 10 == 0 };
        }
        match &resp.location {
            Some(location) => {
                let next = normalize_url(location.as_str());
                let next_chars = chars_of(next.as_str());
                let empty: Vec<char> = Vec::new();
                if crate::parser::login_required_chars(&empty, &next_chars) {
                    self.last_error = "watch 被導向登入頁，cookie 可能已過期".to_owned();
                    return WatchAction::Abort;
                }
                if crate::text::contains_exec(&next_chars, &chars_of("/ticket/area/")) {
                    round.set_current_href(next);
                    return WatchAction::Relocated;
                }
                self.last_error = concat3("watch 被導向非 area 頁面: ", &next_chars, "");
                proof {
                    reveal_strlit("");
                    assert("watch 被導向非 area 頁面: "@ + next_chars@ + ""@ =~= "watch 被導向非 area 頁面: "@ + next_chars@);
                }
                WatchAction::Stray
            },
            None => {
                if crate::parser::detect_login_required(resp.body.as_str(), resp.final_url.as_str()) {
                    self.last_error = "watch 收到登入頁，cookie 可能已過期".to_owned();
                    return WatchAction::Abort;
                }
                let info = crate::parser::parse_area_list(resp.body.as_str());
                let areas = filter_selectable_areas(info.available);
                if areas.len() == 0 {
                    return WatchAction::Waiting { report: visits % 10 == 1 };
                }
                let area = select_area(self.event.area_keyword.as_str(), &areas);
                WatchAction::Buy { area }
            },
        }
    }
}


// ---------------------------------------------------------------------------
// Watch targets from the game page.
/// The rows to watch from the game page, or why there are none.
pub open spec fn game_page_targets(status: u16, body: Seq<char>, final_url: Seq<char>, date_kw: Seq<char>) -> Result<Seq<(Seq<char>, Seq<char>)>, Seq<char>> {
    if blocked_status(status) {
        Err("game 頁收到 "@ + decimal(status as nat) + " (可能被 Cloudflare 擋)"@)
    } else if login_required(body, final_url) {
        Err("game 頁顯示登入頁，cookie 可能已過期"@)
    } else if game_list(body).len() == 0 {
        if crate::parser::coming_soon(body) {
            Err("game 頁顯示即將開賣，尚未產生可監測場次"@)
        } else {
            Err("game 頁找不到場次列表"@)
        }
    } else {
        Ok(crate::tixcraft::selected_rows(game_list(body), date_kw))
    }
}

pub fn game_page_rows(resp: &ApiTextResponse, date_keyword: &str) -> (r: Result<Vec<(String, String)>, String>)
    ensures
        match r {
            Ok(rows) => game_page_targets(resp.status, resp.body@, resp.final_url@, date_keyword@) == Ok::<Seq<(Seq<char>, Seq<char>)>, Seq<char>>(pair_views(rows@)),
            Err(e) => game_page_targets(resp.status, resp.body@, resp.final_url@, date_keyword@) == Err::<Seq<(Seq<char>, Seq<char>)>, Seq<char>>(e@),
        },
{
    if is_blocked_status(resp.status) {
        let digits = decimal_chars(resp.status as u128);
        return Err(concat3("game 頁收到 ", &digits, " (可能被 Cloudflare 擋)"));
    }
    if crate::parser::detect_login_required(resp.body.as_str(), resp.final_url.as_str()) {
        return Err("game 頁顯示登入頁，cookie 可能已過期".to_owned());
    }
    let rows = crate::parser::parse_game_list(resp.body.as_str());
    if rows.len() == 0 {
        if crate::parser::detect_coming_soon(resp.body.as_str()) {
            return Err("game 頁顯示即將開賣，尚未產生可監測場次".to_owned());
        }
        return Err("game 頁找不到場次列表".to_owned());
    }
    let selected = crate::tixcraft::select_game_rows(&rows, date_keyword);
    Ok(selected)
}

/// A game row on its way to becoming a target.
#[derive(Debug)]
pub enum TargetStart {
    /// The row links to an area page: watch it.
    Ready(WatchTarget),
    /// The row links to a verify page, which must be answered first.
    NeedsVerify(String),
}

/// A row's link, made absolute: an area page becomes a target with no visits
/// yet; a verify page must be answered first.
pub fn start_watch_target(text: String, href: &str) -> (r: TargetStart)
    ensures
        verify_url(normalized_url(href@)) ==> (r matches TargetStart::NeedsVerify(u) && u@ == normalized_url(href@)),
        !verify_url(normalized_url(href@)) ==> (r matches TargetStart::Ready(t) && t.keyword == text
            && t.text == text && t.href@ == normalized_url(href@) && t.visits == 0),
{
    let url = normalize_url(href);
    if crate::tixcraft::is_verify_url(url.as_str()) {
        TargetStart::NeedsVerify(url)
    } else {
        TargetStart::Ready(WatchTarget { keyword: text.clone(), text, href: url, visits: 0 })
    }
}

/// A row behind a verify page becomes a target on the area page that the
/// verify flow reached; without one the row fails.
pub fn finish_verified_target(text: String, area_url: Option<String>) -> (r: Result<WatchTarget, String>)
    ensures
        match area_url {
            Some(u) => r matches Ok(t) && t.keyword == text && t.text == text && t.href == u && t.visits == 0,
            None => r matches Err(e) && e@ == "verify 頁無法換到 area URL: "@ + text@,
        },
{
    match area_url {
        Some(href) => Ok(WatchTarget { keyword: text.clone(), text, href, visits: 0 }),
        None => {
            let t = chars_of(text.as_str());
            let e = concat3("verify 頁無法換到 area URL: ", &t, "");
            proof {
                reveal_strlit("");
                assert("verify 頁無法換到 area URL: "@ + t@ + ""@ =~= "verify 頁無法換到 area URL: "@ + t@);
            }
            Err(e)
        },
    }
}

// ---------------------------------------------------------------------------
// The verify (presale code) flow.
/// The error of a blocked verify page.
pub fn verify_page_error(status: u16) -> (r: Option<String>)
    ensures
        blocked_status(status) ==> (r matches Some(e) && e@ == "verify 頁收到 "@ + decimal(status as nat) + " (可能被 Cloudflare 擋)"@),
        !blocked_status(status) ==> r is None,
{
    if is_blocked_status(status) {
        let digits = decimal_chars(status as u128);
        Some(concat3("verify 頁收到 ", &digits, " (可能被 Cloudflare 擋)"))
    } else {
        None
    }
}

/// The check-code request that answers a verify page.
#[derive(Debug)]
pub struct VerifySubmission {
    pub check_url: String,
    pub referer: String,
    /// `_csrf` and `checkCode`, in that order.
    pub form: Vec<(String, String)>,
}

/// The answer to give: the one the page states, else the configured presale
/// code when it is set.
pub open spec fn verify_answer(page_answer: Option<Seq<char>>, presale_code: Seq<char>) -> Option<Seq<char>> {
    match page_answer {
        Some(a) => Some(a),
        None => if trim(presale_code).len() > 0 { Some(presale_code) } else { None },
    }
}

/// Where the answer goes: the page's form action when it is not blank,
/// else the check-code URL of the verify page.
pub open spec fn verify_target(form_action: Option<Seq<char>>, verify_url: Seq<char>) -> Seq<char> {
    match form_action {
        Some(a) => if trim(a).len() > 0 { normalized_url(a) } else { crate::tixcraft::check_url_of(verify_url) },
        None => crate::tixcraft::check_url_of(verify_url),
    }
}

pub fn verify_submission(info: &crate::parser::VerifyInfo, presale_code: &str, verify_url: &str) -> (r: Option<VerifySubmission>)
    ensures
        match verify_answer(opt_view(info.answer), presale_code@) {
            None => r is None,
            Some(a) => r matches Some(sub) && {
                &&& sub.check_url@ == verify_target(opt_view(info.form_action), verify_url@)
                &&& sub.referer@ == verify_url@
                &&& sub.form@.len() == 2
                &&& sub.form@[0].0@ == "_csrf"@
                &&& sub.form@[0].1@ == match opt_view(info.csrf) {
                    Some(c) => c,
                    None => Seq::<char>::empty(),
                }
                &&& sub.form@[1].0@ == "checkCode"@
                &&& sub.form@[1].1@ == a
            },
        },
{
    let answer = match &info.answer {
        Some(a) => a.clone(),
        None => {
            if !is_blank(&chars_of(presale_code)) {
                presale_code.to_owned()
            } else {
                return None;
            }
        },
    };
    let csrf = string_or_empty(&info.csrf);
    let check_url = match &info.form_action {
        Some(a) => {
            if !is_blank(&chars_of(a.as_str())) {
                normalize_url(a.as_str())
            } else {
                crate::tixcraft::verify_check_url(verify_url)
            }
        },
        None => crate::tixcraft::verify_check_url(verify_url),
    };
    let mut form: Vec<(String, String)> = Vec::new();
    form.push(("_csrf".to_owned(), csrf));
    form.push(("checkCode".to_owned(), answer));
    Some(VerifySubmission { check_url, referer: verify_url.to_owned(), form })
}

/// The string member `key` of the JSON object in `text`; `None` when the
/// text is not JSON, not an object, lacks the member, or the member is not a
/// string. A function of the two texts.
pub uninterp spec fn json_string_member(text: Seq<char>, key: Seq<char>) -> Option<Seq<char>>;

/// Calls `serde_json::from_str::<serde_json::Value>` on `text` and reads the
/// member `key` when it is a JSON string; the result is `json_string_member`.
#[verifier::external_body]
fn json_member(text: &str, key: &str) -> (r: Option<String>)
    ensures
        opt_view(r) == json_string_member(text@, key@),
{
    match serde_json::from_str::<serde_json::Value>(text) {
        Ok(value) => match value.get(key) {
            Some(serde_json::Value::String(s)) => Some(s.clone()),
            _ => None,
        },
        Err(_) => None,
    }
}

/// Where the check-code answer led, given the `url` member of its JSON body:
/// the redirect, the JSON `url`, or the page it ended on, whichever comes
/// first and is not a verify page.
pub open spec fn verify_landing(location: Option<Seq<char>>, json_url: Option<Seq<char>>, final_url: Seq<char>) -> Option<Seq<char>> {
    let from_location = match location {
        Some(l) => if !verify_url(normalized_url(l)) { Some(normalized_url(l)) } else { None },
        None => None,
    };
    let from_json = match json_url {
        Some(u) => if !verify_url(normalized_url(u)) { Some(normalized_url(u)) } else { None },
        None => None,
    };
    if from_location is Some {
        from_location
    } else if from_json is Some {
        from_json
    } else if final_url.len() > 0 && !verify_url(final_url) {
        Some(final_url)
    } else {
        None
    }
}

/// The landing page of a check-code answer, from its `url` JSON member.
pub fn verify_landing_page(location: &Option<String>, json_url: Option<String>, final_url: &str) -> (r: Option<String>)
    ensures
        opt_view(r) == verify_landing(opt_view(*location), opt_view(json_url), final_url@),
{
    match location {
        Some(l) => {
            let n = normalize_url(l.as_str());
            if !crate::tixcraft::is_verify_url(n.as_str()) {
                return Some(n);
            }
        },
        None => {},
    }
    match json_url {
        Some(u) => {
            let n = normalize_url(u.as_str());
            if !crate::tixcraft::is_verify_url(n.as_str()) {
                return Some(n);
            }
        },
        None => {},
    }
    if chars_of(final_url).len() > 0 && !crate::tixcraft::is_verify_url(final_url) {
        return Some(final_url.to_owned());
    }
    None
}

/// The landing page of the check-code response.
pub fn verify_result(resp: &ApiTextResponse) -> (r: Option<String>)
    ensures
        opt_view(r) == verify_landing(opt_view(resp.location), json_string_member(resp.body@, "url"@), resp.final_url@),
{
    let json_url = json_member(resp.body.as_str(), "url");
    verify_landing_page(&resp.location, json_url, resp.final_url.as_str())
}


// ---------------------------------------------------------------------------
// Form bodies.
/// The body of a form POST: every field once, ordered by name.
pub fn build_form_payload(fields: &FormFields) -> (r: Vec<(String, String)>)
    ensures
        is_sorted_body(r@, fields@),
{
    fields.sorted_pairs()
}

fn join_texts(parts: &Vec<Vec<char>>) -> (r: String)
    ensures
        r@ == join_all(crate::text::vec_views(parts@)),
{
    let mut out: Vec<char> = Vec::new();
    let mut i: usize = 0;
    while i < parts.len()
        invariant
            i <= parts@.len(),
            out@ == join_all(crate::text::vec_views(parts@).take(i as int)),
        decreases parts@.len() - i,
    {
        assert(crate::text::vec_views(parts@).take(i + 1).drop_last() =~= crate::text::vec_views(parts@).take(i as int));
        append_chars(&mut out, &parts[i]);
        i = i + 1;
    }
    assert(crate::text::vec_views(parts@).take(parts@.len() as int) =~= crate::text::vec_views(parts@));
    string_of(&out)
}

/// The concatenation of a list of texts.
pub open spec fn join_all(parts: Seq<Seq<char>>) -> Seq<char>
    decreases parts.len(),
{
    if parts.len() == 0 {
        seq![]
    } else {
        join_all(parts.drop_last()) + parts.last()
    }
}

/// The success note of a submitted order: the row, the page and the count.
pub open spec fn success_note(target_text: Seq<char>, label: Seq<char>, url: Seq<char>, count: u32) -> Seq<char> {
    "場次: "@ + target_text + "\n"@ + label + url + "\n張數: "@ + decimal(count as nat)
}

fn success_note_exec(target_text: &str, label: &str, url: &str, count: u32) -> (r: String)
    ensures
        r@ == success_note(target_text@, label@, url@, count),
{
    let mut parts: Vec<Vec<char>> = Vec::new();
    parts.push(chars_of("場次: "));
    parts.push(chars_of(target_text));
    parts.push(chars_of("\n"));
    parts.push(chars_of(label));
    parts.push(chars_of(url));
    parts.push(chars_of("\n張數: "));
    parts.push(decimal_chars(count as u128));
    let r = join_texts(&parts);
    proof {
        let v = crate::text::vec_views(parts@);
        assert(v.take(0) =~= seq![]);
        assert(join_all(v) =~= join_all(v.drop_last()) + v.last());
        assert(v.drop_last().drop_last().drop_last().drop_last().drop_last().drop_last().drop_last() =~= Seq::<Seq<char>>::empty());
        assert(join_all(v) =~= success_note(target_text@, label@, url@, count)) by {
            reveal_with_fuel(join_all, 8);
        }
    }
    r
}

// ---------------------------------------------------------------------------
// The ticket page.
/// What a submitted ticket form leads to.
#[derive(Debug)]
pub enum TicketPost {
    /// The attempt is over: bought or not.
    Done(bool),
    /// A checkout page to go through.
    Checkout(String),
}

impl TixcraftApiBot {
    /// The ticket count asked for: the configured count, at least one.
    pub open spec fn desired_count(&self) -> u32 {
        if self.event_view().ticket_count >= 1 { self.event_view().ticket_count } else { 1 }
    }

    /// The ticket form to submit from the ticket page (without the captcha
    /// answer): `Ok(None)` with an error text when the page is not usable,
    /// `Err` when it offers no ticket count.
    pub fn ticket_fields(&mut self, ticket_url: &str, resp: &ApiTextResponse) -> (r: Result<Option<FormFields>, String>)
        ensures
            old(self).same_setup(&*final(self)),
            final(self).stats_view() == old(self).stats_view(),
            final(self).success_view() == old(self).success_view(),
            login_required(resp.body@, resp.final_url@) ==> (r matches Ok(None) && final(self).error_view() == "票頁需要重新登入"@),
            !login_required(resp.body@, resp.final_url@) ==> {
                let (m, select, options) = crate::parser::ticket_form(resp.body@);
                if !m.contains_key("_csrf"@) {
                    r matches Ok(None) && final(self).error_view() == crate::tixcraft::ticket_page_failure(resp.body@, resp.final_url@)
                } else {
                    &&& final(self).error_view() == old(self).error_view()
                    &&& match select {
                        None => r matches Ok(Some(f)) && f@ == m,
                        Some(name) => match crate::tixcraft::ticket_count_choice(options, old(self).desired_count()) {
                            None => r matches Err(e) && e@ == "票頁沒有可用票數選項: "@ + ticket_url@,
                            Some(n) => r matches Ok(Some(f)) && f@ == m.insert(name, decimal(n as nat)),
                        },
                    }
                }
            },
    {
        if crate::parser::detect_login_required(resp.body.as_str(), resp.final_url.as_str()) {
            self.last_error = "票頁需要重新登入".to_owned();
            return Ok(None);
        }
        let form = crate::parser::parse_ticket_form(resp.body.as_str());
        if !form.fields.contains_key("_csrf") {
            self.last_error = crate::tixcraft::classify_ticket_page_failure(resp.body.as_str(), resp.final_url.as_str());
            return Ok(None);
        }
        let desired: u32 = if self.event.ticket_count >= 1 { self.event.ticket_count } else { 1 };
        let mut fields = form.fields;
        match form.select_name {
            None => Ok(Some(fields)),
            Some(name) => match crate::tixcraft::select_ticket_count(&form.select_options, desired) {
                None => {
                    let u = chars_of(ticket_url);
                    let e = concat3("票頁沒有可用票數選項: ", &u, "");
                    proof {
                        reveal_strlit("");
                        assert("票頁沒有可用票數選項: "@ + u@ + ""@ =~= "票頁沒有可用票數選項: "@ + u@);
                    }
                    Err(e)
                },
                Some(n) => {
                    let count = string_of(&decimal_chars(n as u128));
                    fields.insert(name, count);
                    Ok(Some(fields))
                },
            },
        }
    }

    /// Adds the captcha answer; an answer that is not four bytes long is a
    /// failed recognition.
    pub fn with_captcha(&mut self, fields: FormFields, captcha_text: &str) -> (r: Option<FormFields>)
        ensures
            old(self).same_setup(&*final(self)),
            final(self).stats_view() == old(self).stats_view(),
            final(self).success_view() == old(self).success_view(),
            vstd::utf8::encode_utf8(captcha_text@).len() as usize != 4 ==> r is None && final(self).error_view() == "驗證碼辨識失敗"@,
            vstd::utf8::encode_utf8(captcha_text@).len() as usize == 4 ==> (r matches Some(f) && f@ == fields@.insert("TicketForm[verifyCode]"@, captcha_text@))
                && final(self).error_view() == old(self).error_view(),
    {
        if captcha_text.len() != 4 {
            self.last_error = "驗證碼辨識失敗".to_owned();
            return None;
        }
        let mut fields = fields;
        fields.insert("TicketForm[verifyCode]".to_owned(), captcha_text.to_owned());
        Some(fields)
    }

    /// Where the ticket form submission led: thrown back, bought, a checkout
    /// page, or an unknown page; without a redirect, the page's error text.
    pub fn on_ticket_post(&mut self, ticket_url: &str, target_text: &str, resp: &ApiTextResponse) -> (r: TicketPost)
        ensures
            old(self).same_setup(&*final(self)),
            final(self).stats_view() == old(self).stats_view(),
            ({
                let next = match resp.location {
                    Some(l) => Some(normalized_url(l@)),
                    None => if resp.final_url@ != ticket_url@ { Some(resp.final_url@) } else { None },
                };
                match next {
                    Some(n) => if crate::tixcraft::fail_url(n) {
                        r matches TicketPost::Done(false) && final(self).error_view() == "送單後被踢回: "@ + n
                            && final(self).success_view() == old(self).success_view()
                    } else if crate::tixcraft::success_order_url(n) {
                        r matches TicketPost::Done(true) && final(self).error_view() == old(self).error_view()
                            && final(self).success_view() == success_note(target_text@, "區域 URL: "@, ticket_url@, old(self).desired_count())
                    } else if crate::tixcraft::checkout_url(n) {
                        r matches TicketPost::Checkout(u) && u@ == n && final(self).error_view() == old(self).error_view()
                            && final(self).success_view() == old(self).success_view()
                    } else {
                        r matches TicketPost::Done(false) && final(self).error_view() == "送單後跳到未知頁面: "@ + n
                            && final(self).success_view() == old(self).success_view()
                    },
                    None => r matches TicketPost::Done(false) && final(self).success_view() == old(self).success_view()
                        && final(self).error_view() == match crate::tixcraft::error_message(resp.body@) {
                            Some(t) => t,
                            None => "送單失敗：HTTP "@ + decimal(resp.status as nat) + "（非 redirect）"@,
                        },
                }
            }),
    {
        let next: Option<String> = match &resp.location {
            Some(l) => Some(normalize_url(l.as_str())),
            None => {
                if !crate::text::seq_eq_exec(&chars_of(resp.final_url.as_str()), &chars_of(ticket_url)) {
                    Some(resp.final_url.clone())
                } else {
                    None
                }
            },
        };
        proof {
            reveal_strlit("");
        }
        match next {
            Some(n) => {
                let nc = chars_of(n.as_str());
                if crate::tixcraft::is_fail_url(n.as_str()) {
                    self.last_error = concat3("送單後被踢回: ", &nc, "");
                    assert("送單後被踢回: "@ + nc@ + ""@ =~= "送單後被踢回: "@ + nc@);
                    TicketPost::Done(false)
                } else if crate::tixcraft::is_success_order_url(n.as_str()) {
                    let desired: u32 = if self.event.ticket_count >= 1 { self.event.ticket_count } else { 1 };
                    self.last_success_info = success_note_exec(target_text, "區域 URL: ", ticket_url, desired);
                    TicketPost::Done(true)
                } else if crate::tixcraft::is_checkout_url(n.as_str()) {
                    TicketPost::Checkout(n)
                } else {
                    self.last_error = concat3("送單後跳到未知頁面: ", &nc, "");
                    assert("送單後跳到未知頁面: "@ + nc@ + ""@ =~= "送單後跳到未知頁面: "@ + nc@);
                    TicketPost::Done(false)
                }
            },
            None => {
                match crate::tixcraft::extract_error_message(resp.body.as_str()) {
                    Some(t) => {
                        self.last_error = t;
                    },
                    None => {
                        let digits = decimal_chars(resp.status as u128);
                        self.last_error = concat3("送單失敗：HTTP ", &digits, "（非 redirect）");
                    },
                }
                TicketPost::Done(false)
            },
        }
    }

    /// Records the success note of an order that went through checkout.
    pub fn on_checkout_finished(&mut self, ticket_url: &str, target_text: &str, ok: bool)
        ensures
            old(self).same_setup(&*final(self)),
            final(self).stats_view() == old(self).stats_view(),
            final(self).error_view() == old(self).error_view(),
            ok ==> final(self).success_view() == success_note(target_text@, "票頁: "@, ticket_url@, old(self).desired_count()),
            !ok ==> final(self).success_view() == old(self).success_view(),
    {
        if ok {
            let desired: u32 = if self.event.ticket_count >= 1 { self.event.ticket_count } else { 1 };
            self.last_success_info = success_note_exec(target_text, "票頁: ", ticket_url, desired);
        }
    }
}


// ---------------------------------------------------------------------------
// The checkout flow: up to five steps, each polling a page up to a hundred
// times for the checkout form, then submitting it.
/// The most steps (checkout pages) an order goes through.
pub open spec fn max_order_steps() -> u32 {
    5
}

/// The most polls of one checkout page.
pub open spec fn max_order_polls() -> u32 {
    100
}

/// The position in the checkout flow.
#[derive(Debug)]
pub struct OrderFlow {
    current_url: String,
    referer: String,
    step: u32,
    poll: u32,
}

/// What the caller does next in the checkout flow.
#[derive(Debug)]
pub enum OrderAction {
    /// Fetch `url` (without following redirects), sending `referer`.
    Get { url: String, referer: String },
    /// Wait 300 ms, then ask `after_wait`.
    Wait,
    /// Submit the form body to `url` (its own referer).
    Post { url: String, payload: Vec<(String, String)> },
    /// The order is done: bought or not (the error text is recorded).
    Finish { ok: bool },
}

impl OrderFlow {
    pub closed spec fn url_view(&self) -> Seq<char> {
        self.current_url@
    }

    pub closed spec fn referer_view(&self) -> Seq<char> {
        self.referer@
    }

    pub closed spec fn step_view(&self) -> u32 {
        self.step
    }

    pub closed spec fn poll_view(&self) -> u32 {
        self.poll
    }

    pub open spec fn wf(&self) -> bool {
        self.step_view() < max_order_steps() && self.poll_view() <= max_order_polls()
    }

    /// How far the flow has come; it grows with every answered page, up to a
    /// bound, so the flow ends.
    pub open spec fn progress(&self) -> int {
        self.step_view() * 101 + self.poll_view()
    }

    /// Whether a fetched page may be handed to `on_order_poll`.
    pub fn can_poll(&self) -> (r: bool)
        ensures
            r == (self.wf() && self.poll_view() < max_order_polls()),
    {
        self.step < 5 && self.poll < 100
    }

    /// Whether a submitted form's answer may be handed to `on_order_post`,
    /// and `after_order_wait` asked.
    pub fn can_continue(&self) -> (r: bool)
        ensures
            r == self.wf(),
    {
        self.step < 5 && self.poll <= 100
    }

    /// The flow for a checkout page: fetch it, with itself as referer.
    pub fn start(order_url: &str) -> (r: (OrderFlow, OrderAction))
        ensures
            r.0.wf(),
            r.0.url_view() == normalized_url(order_url@),
            r.0.referer_view() == normalized_url(order_url@),
            r.0.step_view() == 0,
            r.0.poll_view() == 0,
            r.1 matches OrderAction::Get { url, referer } && url@ == normalized_url(order_url@) && referer@ == normalized_url(order_url@),
    {
        let url = normalize_url(order_url);
        let flow = OrderFlow { current_url: url.clone(), referer: url.clone(), step: 0, poll: 0 };
        (flow, OrderAction::Get { url: url.clone(), referer: url })
    }
}

/// The progress of a well-formed flow is bounded.
pub proof fn lemma_order_progress_bounded(flow: OrderFlow)
    requires
        flow.wf(),
    ensures
        0 <= flow.progress() < 5 * 101,
{
}

impl TixcraftApiBot {
    fn next_order_step(&mut self, flow: &mut OrderFlow, url: String, referer: String) -> (r: OrderAction)
        requires
            old(flow).wf(),
        ensures
            old(self).same_setup(&*final(self)),
            final(self).stats_view() == old(self).stats_view(),
            final(self).success_view() == old(self).success_view(),
            !(r is Finish) ==> final(flow).wf(),
            final(flow).progress() > old(flow).progress(),
            final(flow).url_view() == url@,
            final(flow).referer_view() == referer@,
            final(flow).step_view() == old(flow).step_view() + 1,
            final(flow).poll_view() == 0,
            old(flow).step_view() + 1 == max_order_steps() ==> (r matches OrderAction::Finish { ok: false }
                && final(self).error_view() == "結帳超過最大步驟數"@),
            old(flow).step_view() + 1 < max_order_steps() ==> (r matches OrderAction::Get { url: u, referer: f } && u@ == url@ && f@ == referer@)
                && final(self).error_view() == old(self).error_view(),
    {
        flow.step = flow.step + 1;
        flow.poll = 0;
        flow.current_url = url.clone();
        flow.referer = referer.clone();
        if flow.step >= 5 {
            self.last_error = "結帳超過最大步驟數".to_owned();
            return OrderAction::Finish { ok: false };
        }
        OrderAction::Get { url, referer }
    }
}


impl TixcraftApiBot {
    /// Handles a polled checkout page: a redirect that throws the attempt
    /// back, completes it or leads to the next checkout page is followed;
    /// otherwise a login page ends the flow, a checkout form is submitted,
    /// and anything else is polled again after a wait.
    pub fn on_order_poll(&mut self, flow: &mut OrderFlow, resp: &ApiTextResponse) -> (r: OrderAction)
        requires
            old(flow).wf(),
            old(flow).poll_view() < max_order_polls(),
            crate::parser::order_form_input_ok(resp.body@),
        ensures
            old(self).same_setup(&*final(self)),
            final(self).stats_view() == old(self).stats_view(),
            final(self).success_view() == old(self).success_view(),
            !(r is Finish) && !(r is Post) ==> final(flow).wf() && final(flow).progress() > old(flow).progress(),
            ({
                let has = resp.location is Some;
                let n = match resp.location {
                    Some(l) => normalized_url(l@),
                    None => Seq::<char>::empty(),
                };
                if has && crate::tixcraft::fail_url(n) {
                    r matches OrderAction::Finish { ok: false } && final(self).error_view() == "Sit tight 被踢回: "@ + n
                } else if has && crate::tixcraft::success_order_url(n) {
                    r matches OrderAction::Finish { ok: true } && final(self).error_view() == old(self).error_view()
                } else if has && crate::tixcraft::checkout_url(n) {
                    &&& final(flow).url_view() == n
                    &&& final(flow).referer_view() == old(flow).url_view()
                    &&& final(flow).step_view() == old(flow).step_view() + 1
                    &&& old(flow).step_view() + 1 == max_order_steps() ==> (r matches OrderAction::Finish { ok: false }
                        && final(self).error_view() == "結帳超過最大步驟數"@)
                    &&& old(flow).step_view() + 1 < max_order_steps() ==> (r matches OrderAction::Get { url, referer }
                        && url@ == n && referer@ == old(flow).url_view() && final(self).error_view() == old(self).error_view())
                } else if login_required(resp.body@, resp.final_url@) {
                    r matches OrderAction::Finish { ok: false } && final(self).error_view() == "結帳頁需要重新登入"@
                } else {
                    &&& final(self).error_view() == old(self).error_view()
                    &&& match crate::parser::order_form(resp.body@) {
                        Some(m) => r matches OrderAction::Post { url, payload } && url@ == old(flow).url_view()
                            && is_sorted_body(payload@, m) && *final(flow) == *old(flow),
                        None => r is Wait && final(flow).poll_view() == old(flow).poll_view() + 1
                            && final(flow).step_view() == old(flow).step_view()
                            && final(flow).url_view() == old(flow).url_view()
                            && final(flow).referer_view() == old(flow).referer_view(),
                    }
                }
            }),
    {
        proof {
            reveal_strlit("");
        }
        match &resp.location {
            Some(l) => {
                let n = normalize_url(l.as_str());
                let nc = chars_of(n.as_str());
                if crate::tixcraft::is_fail_url(n.as_str()) {
                    self.last_error = concat3("Sit tight 被踢回: ", &nc, "");
                    assert("Sit tight 被踢回: "@ + nc@ + ""@ =~= "Sit tight 被踢回: "@ + nc@);
                    return OrderAction::Finish { ok: false };
                }
                if crate::tixcraft::is_success_order_url(n.as_str()) {
                    return OrderAction::Finish { ok: true };
                }
                if crate::tixcraft::is_checkout_url(n.as_str()) {
                    let referer = flow.current_url.clone();
                    return self.next_order_step(flow, n, referer);
                }
            },
            None => {},
        }
        if crate::parser::detect_login_required(resp.body.as_str(), resp.final_url.as_str()) {
            self.last_error = "結帳頁需要重新登入".to_owned();
            return OrderAction::Finish { ok: false };
        }
        match crate::parser::parse_order_form(resp.body.as_str()) {
            Some(form) => {
                let payload = build_form_payload(&form.fields);
                OrderAction::Post { url: flow.current_url.clone(), payload }
            },
            None => {
                flow.poll = flow.poll + 1;
                OrderAction::Wait
            },
        }
    }

    /// After a wait: poll the page again, unless it has been polled the most
    /// times.
    pub fn after_order_wait(&mut self, flow: &OrderFlow) -> (r: OrderAction)
        requires
            flow.wf(),
        ensures
            old(self).same_setup(&*final(self)),
            final(self).stats_view() == old(self).stats_view(),
            final(self).success_view() == old(self).success_view(),
            flow.poll_view() == max_order_polls() ==> (r matches OrderAction::Finish { ok: false }
                && final(self).error_view() == "等待結帳表單逾時"@),
            flow.poll_view() < max_order_polls() ==> (r matches OrderAction::Get { url, referer }
                && url@ == flow.url_view() && referer@ == flow.referer_view()
                && final(self).error_view() == old(self).error_view()),
    {
        if flow.poll >= 100 {
            self.last_error = "等待結帳表單逾時".to_owned();
            return OrderAction::Finish { ok: false };
        }
        OrderAction::Get { url: flow.current_url.clone(), referer: flow.referer.clone() }
    }

    /// Handles the response to a submitted checkout form.
    pub fn on_order_post(&mut self, flow: &mut OrderFlow, resp: &ApiTextResponse) -> (r: OrderAction)
        requires
            old(flow).wf(),
        ensures
            old(self).same_setup(&*final(self)),
            final(self).stats_view() == old(self).stats_view(),
            final(self).success_view() == old(self).success_view(),
            !(r is Finish) ==> final(flow).wf() && final(flow).progress() > old(flow).progress(),
            match resp.location {
                None => r matches OrderAction::Finish { ok: false } && final(self).error_view() == match crate::tixcraft::error_message(resp.body@) {
                    Some(t) => t,
                    None => "結帳 POST 失敗：HTTP "@ + decimal(resp.status as nat),
                },
                Some(l) => {
                    let n = normalized_url(l@);
                    if crate::tixcraft::fail_url(n) {
                        r matches OrderAction::Finish { ok: false } && final(self).error_view() == "Checkout 後被踢回: "@ + n
                    } else if crate::tixcraft::success_order_url(n) {
                        r matches OrderAction::Finish { ok: true } && final(self).error_view() == old(self).error_view()
                    } else if crate::tixcraft::checkout_url(n) {
                        &&& final(flow).url_view() == n
                        &&& final(flow).referer_view() == old(flow).referer_view()
                        &&& final(flow).step_view() == old(flow).step_view() + 1
                        &&& old(flow).step_view() + 1 == max_order_steps() ==> (r matches OrderAction::Finish { ok: false }
                            && final(self).error_view() == "結帳超過最大步驟數"@)
                        &&& old(flow).step_view() + 1 < max_order_steps() ==> (r matches OrderAction::Get { url, referer }
                            && url@ == n && referer@ == old(flow).referer_view() && final(self).error_view() == old(self).error_view())
                    } else {
                        r matches OrderAction::Finish { ok: false } && final(self).error_view() == "Checkout 跳到未知頁面: "@ + n
                    }
                },
            },
    {
        proof {
            reveal_strlit("");
        }
        match &resp.location {
            None => {
                match crate::tixcraft::extract_error_message(resp.body.as_str()) {
                    Some(t) => {
                        self.last_error = t;
                    },
                    None => {
                        let digits = decimal_chars(resp.status as u128);
                        self.last_error = concat3("結帳 POST 失敗：HTTP ", &digits, "");
                        assert("結帳 POST 失敗：HTTP "@ + digits@ + ""@ =~= "結帳 POST 失敗：HTTP "@ + digits@);
                    },
                }
                OrderAction::Finish { ok: false }
            },
            Some(l) => {
                let n = normalize_url(l.as_str());
                let nc = chars_of(n.as_str());
                if crate::tixcraft::is_fail_url(n.as_str()) {
                    self.last_error = concat3("Checkout 後被踢回: ", &nc, "");
                    assert("Checkout 後被踢回: "@ + nc@ + ""@ =~= "Checkout 後被踢回: "@ + nc@);
                    OrderAction::Finish { ok: false }
                } else if crate::tixcraft::is_success_order_url(n.as_str()) {
                    OrderAction::Finish { ok: true }
                } else if crate::tixcraft::is_checkout_url(n.as_str()) {
                    let referer = flow.referer.clone();
                    self.next_order_step(flow, n, referer)
                } else {
                    self.last_error = concat3("Checkout 跳到未知頁面: ", &nc, "");
                    assert("Checkout 跳到未知頁面: "@ + nc@ + ""@ =~= "Checkout 跳到未知頁面: "@ + nc@);
                    OrderAction::Finish { ok: false }
                }
            },
        }
    }
}

} // verus!
