//! Configuration model: the sections of `config.yaml` after presets and
//! environment overrides, and the rules that resolve them.

use vstd::prelude::*;
use crate::keywords::nonblank_trimmed;
use crate::yaml::{
    clone_node, deep_merge, field_or_empty, get_field, lemma_merge_lookup, lemma_view_entries, lemma_with_field_other,
    lemma_with_field_same, lookup, mapping_entries, merged, merge_into, node_view, unique_keys,
    opt_node_view, section_from_value, set_field, string_field, view_entries, with_field, yaml_string, KeyView,
    NodeView, YamlKey, YamlNode,
};
use crate::text::{
    append_chars, ascii_lower, ascii_lower_exec, chars_of, contains, contains_exec, first_in, is_blank, join, join_exec,
    lemma_first_in_found, lemma_first_in_none, replace_char, replace_char_exec, seq_eq_exec, split_on, split_on_exec,
    starts_with, starts_with_exec, string_of, string_views, strings_of, to_lowercase, trim, trim_exec, unicode_lowercase,
    vec_views,
};

verus! {

/// One ticketing event to watch.
#[derive(Debug)]
pub struct EventConfig {
    pub name: String,
    pub platform: String,
    pub url: String,
    pub ticket_count: u32,
    pub date_keyword: String,
    pub area_keyword: String,
    pub sale_time: String,
    pub presale_code: String,
}

impl Clone for EventConfig {
    fn clone(&self) -> (r: Self)
        ensures
            r == *self,
    {
        EventConfig {
            name: self.name.clone(),
            platform: self.platform.clone(),
            url: self.url.clone(),
            ticket_count: self.ticket_count,
            date_keyword: self.date_keyword.clone(),
            area_keyword: self.area_keyword.clone(),
            sale_time: self.sale_time.clone(),
            presale_code: self.presale_code.clone(),
        }
    }
}

impl Default for EventConfig {
    fn default() -> (r: Self)
        ensures
            r.name@ == Seq::<char>::empty(),
            r.platform@ == Seq::<char>::empty(),
            r.url@ == Seq::<char>::empty(),
            r.ticket_count == 2,
            r.date_keyword@ == Seq::<char>::empty(),
            r.area_keyword@ == Seq::<char>::empty(),
            r.sale_time@ == Seq::<char>::empty(),
            r.presale_code@ == Seq::<char>::empty(),
    {
        EventConfig {
            name: String::new(),
            platform: String::new(),
            url: String::new(),
            ticket_count: 2,
            date_keyword: String::new(),
            area_keyword: String::new(),
            sale_time: String::new(),
            presale_code: String::new(),
        }
    }
}

/// Browser settings (the API watcher reads `api_mode` and `user_data_dir`).
#[derive(Debug)]
pub struct BrowserConfig {
    pub engine: String,
    pub headless: bool,
    pub user_data_dir: String,
    pub pre_warm: bool,
    pub lang: String,
    pub executable_path: String,
    pub api_mode: String,
    pub turbo_mode: bool,
}

impl Clone for BrowserConfig {
    fn clone(&self) -> (r: Self)
        ensures
            r == *self,
    {
        BrowserConfig {
            engine: self.engine.clone(),
            headless: self.headless,
            user_data_dir: self.user_data_dir.clone(),
            pre_warm: self.pre_warm,
            lang: self.lang.clone(),
            executable_path: self.executable_path.clone(),
            api_mode: self.api_mode.clone(),
            turbo_mode: self.turbo_mode,
        }
    }
}

impl Default for BrowserConfig {
    fn default() -> (r: Self)
        ensures
            r.engine@ == "nodriver"@,
            !r.headless,
            r.user_data_dir@ == "./chrome_profile"@,
            r.pre_warm,
            r.lang@ == "zh-TW"@,
            r.executable_path@ == "/usr/bin/chromium"@,
            r.api_mode@ == "off"@,
            r.turbo_mode,
    {
        BrowserConfig {
            engine: "nodriver".to_owned(),
            headless: false,
            user_data_dir: "./chrome_profile".to_owned(),
            pre_warm: true,
            lang: "zh-TW".to_owned(),
            executable_path: "/usr/bin/chromium".to_owned(),
            api_mode: "off".to_owned(),
            turbo_mode: true,
        }
    }
}

/// Captcha solver settings. The confidence threshold is held as the bits of
/// its `f32` value: nothing here computes with it.
#[derive(Debug)]
pub struct CaptchaConfig {
    pub engine: String,
    pub beta_model: bool,
    pub char_ranges: u32,
    pub confidence_threshold_bits: u32,
    pub max_attempts: u32,
    pub preprocess: bool,
    pub custom_model_path: String,
    pub custom_charset_path: String,
    pub collect_dir: String,
}

impl Clone for CaptchaConfig {
    fn clone(&self) -> (r: Self)
        ensures
            r == *self,
    {
        CaptchaConfig {
            engine: self.engine.clone(),
            beta_model: self.beta_model,
            char_ranges: self.char_ranges,
            confidence_threshold_bits: self.confidence_threshold_bits,
            max_attempts: self.max_attempts,
            preprocess: self.preprocess,
            custom_model_path: self.custom_model_path.clone(),
            custom_charset_path: self.custom_charset_path.clone(),
            collect_dir: self.collect_dir.clone(),
        }
    }
}

impl Default for CaptchaConfig {
    /// `confidence_threshold` defaults to 0.6 (bits `0x3F19999A`).
    fn default() -> (r: Self)
        ensures
            r.engine@ == "ddddocr"@,
            r.beta_model,
            r.char_ranges == 1,
            r.confidence_threshold_bits == 0x3F19999Au32,
            r.max_attempts == 5,
            r.preprocess,
            r.custom_model_path@ == Seq::<char>::empty(),
            r.custom_charset_path@ == Seq::<char>::empty(),
            r.collect_dir@ == Seq::<char>::empty(),
    {
        CaptchaConfig {
            engine: "ddddocr".to_owned(),
            beta_model: true,
            char_ranges: 1,
            confidence_threshold_bits: 0x3F19999Au32,
            max_attempts: 5,
            preprocess: true,
            custom_model_path: String::new(),
            custom_charset_path: String::new(),
            collect_dir: String::new(),
        }
    }
}

#[derive(Debug)]
pub struct TelegramConfig {
    pub enabled: bool,
    pub bot_token: String,
    pub chat_id: String,
}

impl Clone for TelegramConfig {
    fn clone(&self) -> (r: Self)
        ensures
            r == *self,
    {
        TelegramConfig { enabled: self.enabled, bot_token: self.bot_token.clone(), chat_id: self.chat_id.clone() }
    }
}

impl Default for TelegramConfig {
    fn default() -> (r: Self)
        ensures
            !r.enabled,
            r.bot_token@ == Seq::<char>::empty(),
            r.chat_id@ == Seq::<char>::empty(),
    {
        TelegramConfig { enabled: false, bot_token: String::new(), chat_id: String::new() }
    }
}

#[derive(Debug)]
pub struct DiscordConfig {
    pub enabled: bool,
    pub webhook_url: String,
}

impl Clone for DiscordConfig {
    fn clone(&self) -> (r: Self)
        ensures
            r == *self,
    {
        DiscordConfig { enabled: self.enabled, webhook_url: self.webhook_url.clone() }
    }
}

impl Default for DiscordConfig {
    fn default() -> (r: Self)
        ensures
            !r.enabled,
            r.webhook_url@ == Seq::<char>::empty(),
    {
        DiscordConfig { enabled: false, webhook_url: String::new() }
    }
}

#[derive(Debug)]
pub struct NotificationConfig {
    pub telegram: TelegramConfig,
    pub discord: DiscordConfig,
}

impl Clone for NotificationConfig {
    fn clone(&self) -> (r: Self)
        ensures
            r == *self,
    {
        NotificationConfig { telegram: self.telegram.clone(), discord: self.discord.clone() }
    }
}

impl Default for NotificationConfig {
    fn default() -> (r: Self)
        ensures
            !r.telegram.enabled,
            r.telegram.bot_token@ == Seq::<char>::empty(),
            r.telegram.chat_id@ == Seq::<char>::empty(),
            !r.discord.enabled,
            r.discord.webhook_url@ == Seq::<char>::empty(),
    {
        NotificationConfig { telegram: TelegramConfig::default(), discord: DiscordConfig::default() }
    }
}

/// Proxy pool settings.
#[derive(Debug)]
pub struct ProxyConfig {
    pub enabled: bool,
    pub rotate: bool,
    pub servers: Vec<String>,
}

impl Clone for ProxyConfig {
    fn clone(&self) -> (r: Self)
        ensures
            r.enabled == self.enabled,
            r.rotate == self.rotate,
            crate::text::string_views(r.servers@) == crate::text::string_views(self.servers@),
    {
        let mut servers: Vec<String> = Vec::new();
        let mut i: usize = 0;
        while i < self.servers.len()
            invariant
                i <= self.servers@.len(),
                crate::text::string_views(servers@) == crate::text::string_views(self.servers@).take(i as int),
            decreases self.servers@.len() - i,
        {
            let ghost before = servers@;
            servers.push(self.servers[i].clone());
            proof {
                assert(crate::text::string_views(servers@) =~= crate::text::string_views(before).push(self.servers@[i as int]@));
            }
            i = i + 1;
            assert(crate::text::string_views(servers@) =~= crate::text::string_views(self.servers@).take(i as int));
        }
        assert(crate::text::string_views(self.servers@).take(self.servers@.len() as int) =~= crate::text::string_views(self.servers@));
        ProxyConfig { enabled: self.enabled, rotate: self.rotate, servers }
    }
}

impl Default for ProxyConfig {
    fn default() -> (r: Self)
        ensures
            !r.enabled,
            r.rotate,
            r.servers@.len() == 0,
    {
        ProxyConfig { enabled: false, rotate: true, servers: Vec::new() }
    }
}

/// Request-trace logging settings.
#[derive(Debug)]
pub struct TraceConfig {
    pub enabled: bool,
    pub log_path: String,
}

impl Clone for TraceConfig {
    fn clone(&self) -> (r: Self)
        ensures
            r == *self,
    {
        TraceConfig { enabled: self.enabled, log_path: self.log_path.clone() }
    }
}

impl Default for TraceConfig {
    fn default() -> (r: Self)
        ensures
            !r.enabled,
            r.log_path@ == "./logs/tixcraft_trace.jsonl"@,
    {
        TraceConfig { enabled: false, log_path: "./logs/tixcraft_trace.jsonl".to_owned() }
    }
}

#[derive(Debug)]
pub struct DeploymentConfig {
    pub profile: String,
}

impl Clone for DeploymentConfig {
    fn clone(&self) -> (r: Self)
        ensures
            r == *self,
    {
        DeploymentConfig { profile: self.profile.clone() }
    }
}

impl Default for DeploymentConfig {
    fn default() -> (r: Self)
        ensures
            r.profile@ == Seq::<char>::empty(),
    {
        DeploymentConfig { profile: String::new() }
    }
}

/// One browser / API session.
#[derive(Debug)]
pub struct SessionConfig {
    pub name: String,
    pub user_data_dir: String,
    pub proxy_server: String,
    pub cookie_file: String,
}

impl Clone for SessionConfig {
    fn clone(&self) -> (r: Self)
        ensures
            r == *self,
    {
        SessionConfig {
            name: self.name.clone(),
            user_data_dir: self.user_data_dir.clone(),
            proxy_server: self.proxy_server.clone(),
            cookie_file: self.cookie_file.clone(),
        }
    }
}

impl Default for SessionConfig {
    fn default() -> (r: Self)
        ensures
            r.name@ == "default"@,
            r.user_data_dir@ == "./chrome_profile"@,
            r.proxy_server@ == Seq::<char>::empty(),
            r.cookie_file@ == Seq::<char>::empty(),
    {
        SessionConfig {
            name: "default".to_owned(),
            user_data_dir: "./chrome_profile".to_owned(),
            proxy_server: String::new(),
            cookie_file: String::new(),
        }
    }
}


/// Clones of a list of events, element for element.
fn clone_events(v: &Vec<EventConfig>) -> (r: Vec<EventConfig>)
    ensures
        r@ == v@,
{
    let mut out: Vec<EventConfig> = Vec::new();
    let mut i: usize = 0;
    while i < v.len()
        invariant
            i <= v@.len(),
            out@ == v@.take(i as int),
        decreases v@.len() - i,
    {
        out.push(v[i].clone());
        i = i + 1;
        assert(out@ =~= v@.take(i as int));
    }
    assert(v@.take(v@.len() as int) =~= v@);
    out
}

/// Clones of a list of sessions, element for element.
fn clone_sessions(v: &Vec<SessionConfig>) -> (r: Vec<SessionConfig>)
    ensures
        r@ == v@,
{
    let mut out: Vec<SessionConfig> = Vec::new();
    let mut i: usize = 0;
    while i < v.len()
        invariant
            i <= v@.len(),
            out@ == v@.take(i as int),
        decreases v@.len() - i,
    {
        out.push(v[i].clone());
        i = i + 1;
        assert(out@ =~= v@.take(i as int));
    }
    assert(v@.take(v@.len() as int) =~= v@);
    out
}

/// The whole configuration; `base_dir` is the directory of the config file.
#[derive(Debug)]
pub struct AppConfig {
    pub events: Vec<EventConfig>,
    pub deployment: DeploymentConfig,
    pub browser: BrowserConfig,
    pub captcha: CaptchaConfig,
    pub notifications: NotificationConfig,
    pub proxy: ProxyConfig,
    pub trace: TraceConfig,
    pub sessions: Vec<SessionConfig>,
    pub ticketmaster_api_key: String,
    pub base_dir: String,
}

impl Clone for AppConfig {
    fn clone(&self) -> (r: Self)
        ensures
            r.events@ == self.events@,
            r.deployment == self.deployment,
            r.browser == self.browser,
            r.captcha == self.captcha,
            r.notifications == self.notifications,
            r.proxy.enabled == self.proxy.enabled,
            r.proxy.rotate == self.proxy.rotate,
            crate::text::string_views(r.proxy.servers@) == crate::text::string_views(self.proxy.servers@),
            r.trace == self.trace,
            r.sessions@ == self.sessions@,
            r.ticketmaster_api_key == self.ticketmaster_api_key,
            r.base_dir == self.base_dir,
    {
        AppConfig {
            events: clone_events(&self.events),
            deployment: self.deployment.clone(),
            browser: self.browser.clone(),
            captcha: self.captcha.clone(),
            notifications: self.notifications.clone(),
            proxy: self.proxy.clone(),
            trace: self.trace.clone(),
            sessions: clone_sessions(&self.sessions),
            ticketmaster_api_key: self.ticketmaster_api_key.clone(),
            base_dir: self.base_dir.clone(),
        }
    }
}

impl Default for AppConfig {
    fn default() -> (r: Self)
        ensures
            r.events@.len() == 0,
            r.sessions@.len() == 0,
            r.ticketmaster_api_key@ == Seq::<char>::empty(),
            r.base_dir@ == Seq::<char>::empty(),
            r.proxy.servers@.len() == 0,
            !r.proxy.enabled,
    {
        AppConfig {
            events: Vec::new(),
            deployment: DeploymentConfig::default(),
            browser: BrowserConfig::default(),
            captcha: CaptchaConfig::default(),
            notifications: NotificationConfig::default(),
            proxy: ProxyConfig::default(),
            trace: TraceConfig::default(),
            sessions: Vec::new(),
            ticketmaster_api_key: String::new(),
            base_dir: String::new(),
        }
    }
}


// ---------------------------------------------------------------------------
// Choosing an event and a session.
pub open spec fn event_matches_pred(events: Seq<EventConfig>, needle: Seq<char>) -> spec_fn(int) -> bool {
    |i: int| contains(unicode_lowercase(events[i].name@), needle) || contains(unicode_lowercase(events[i].url@), needle)
}

/// The event a keyword picks: the first whose name or URL contains it
/// (ignoring case), or the first event when no keyword is given.
pub open spec fn chosen_event(events: Seq<EventConfig>, keyword: Option<Seq<char>>) -> Option<EventConfig> {
    match keyword {
        Some(k) if trim(k).len() > 0 => {
            let needle = unicode_lowercase(trim(k));
            match first_in(0, events.len() as int, event_matches_pred(events, needle)) {
                Some(i) => Some(events[i]),
                None => None,
            }
        },
        _ => if events.len() > 0 { Some(events[0]) } else { None },
    }
}

pub open spec fn session_name_pred(sessions: Seq<SessionConfig>, name: Seq<char>) -> spec_fn(int) -> bool {
    |i: int| sessions[i].name@ == name
}

/// The session a name picks: the one with exactly that name, or the first
/// session when no name is given.
pub open spec fn chosen_session(sessions: Seq<SessionConfig>, name: Option<Seq<char>>) -> Option<SessionConfig> {
    match name {
        Some(n) if trim(n).len() > 0 => match first_in(0, sessions.len() as int, session_name_pred(sessions, n)) {
            Some(i) => Some(sessions[i]),
            None => None,
        },
        _ => if sessions.len() > 0 { Some(sessions[0]) } else { None },
    }
}

pub open spec fn opt_str_view(o: Option<&str>) -> Option<Seq<char>> {
    match o {
        Some(s) => Some(s@),
        None => None,
    }
}

impl AppConfig {
    pub fn select_event(&self, keyword: Option<&str>) -> (r: Option<EventConfig>)
        ensures
            r == chosen_event(self.events@, opt_str_view(keyword)),
    {
        match keyword {
            Some(k) => {
                let kc = chars_of(k);
                if !is_blank(&kc) {
                    let needle = to_lowercase(&trim_exec(&kc));
                    let mut i: usize = 0;
                    while i < self.events.len()
                        invariant
                            i <= self.events@.len(),
                            opt_str_view(keyword) == Some(k@),
                            trim(k@).len() > 0,
                            needle@ == unicode_lowercase(trim(k@)),
                            forall|j: int| 0 <= j < i ==> !(#[trigger] event_matches_pred(self.events@, needle@)(j)),
                        decreases self.events@.len() - i,
                    {
                        let name = to_lowercase(&chars_of(self.events[i].name.as_str()));
                        let url = to_lowercase(&chars_of(self.events[i].url.as_str()));
                        if contains_exec(&name, &needle) || contains_exec(&url, &needle) {
                            proof {
                                lemma_first_in_found(0, self.events@.len() as int, event_matches_pred(self.events@, needle@), i as int);
                            }
                            return Some(self.events[i].clone());
                        }
                        i = i + 1;
                    }
                    proof {
                        lemma_first_in_none(0, self.events@.len() as int, event_matches_pred(self.events@, needle@));
                    }
                    return None;
                }
            },
            None => {},
        }
        if self.events.len() > 0 {
            Some(self.events[0].clone())
        } else {
            None
        }
    }

    pub fn select_session(&self, session_name: Option<&str>) -> (r: Option<SessionConfig>)
        ensures
            r == chosen_session(self.sessions@, opt_str_view(session_name)),
    {
        match session_name {
            Some(n) => {
                let nc = chars_of(n);
                if !is_blank(&nc) {
                    let mut i: usize = 0;
                    while i < self.sessions.len()
                        invariant
                            i <= self.sessions@.len(),
                            opt_str_view(session_name) == Some(n@),
                            trim(n@).len() > 0,
                            nc@ == n@,
                            forall|j: int| 0 <= j < i ==> !(#[trigger] session_name_pred(self.sessions@, n@)(j)),
                        decreases self.sessions@.len() - i,
                    {
                        if seq_eq_exec(&chars_of(self.sessions[i].name.as_str()), &nc) {
                            proof {
                                lemma_first_in_found(0, self.sessions@.len() as int, session_name_pred(self.sessions@, n@), i as int);
                            }
                            return Some(self.sessions[i].clone());
                        }
                        i = i + 1;
                    }
                    proof {
                        lemma_first_in_none(0, self.sessions@.len() as int, session_name_pred(self.sessions@, n@));
                    }
                    return None;
                }
            },
            None => {},
        }
        if self.sessions.len() > 0 {
            Some(self.sessions[0].clone())
        } else {
            None
        }
    }
}

// ---------------------------------------------------------------------------
// Environment values.
/// The deployment profile a setting names: aliases mapped onto
/// `local_desktop`, `gcp_taiwan` and `aws_tokyo`; anything else kept
/// (trimmed, lower case, `-` as `_`).
pub open spec fn profile_key(p: Seq<char>) -> Seq<char> {
    replace_char(unicode_lowercase(trim(p)), '-', '_')
}

pub open spec fn normalized_profile(p: Seq<char>) -> Seq<char> {
    let k = profile_key(p);
    if k == "local"@ || k == "local_desktop"@ {
        "local_desktop"@
    } else if k == "gcp"@ || k == "cloud"@ || k == "gcp_taiwan"@ {
        "gcp_taiwan"@
    } else if k == "aws"@ || k == "tokyo"@ || k == "aws_tokyo"@ {
        "aws_tokyo"@
    } else {
        k
    }
}

fn lit_eq(a: &Vec<char>, lit: &str) -> (r: bool)
    ensures
        r == (a@ == lit@),
{
    seq_eq_exec(a, &chars_of(lit))
}

pub fn normalize_deployment_profile(profile: &str) -> (r: String)
    ensures
        r@ == normalized_profile(profile@),
{
    let k = replace_char_exec(&to_lowercase(&trim_exec(&chars_of(profile))), '-', '_');
    if lit_eq(&k, "local") || lit_eq(&k, "local_desktop") {
        "local_desktop".to_owned()
    } else if lit_eq(&k, "gcp") || lit_eq(&k, "cloud") || lit_eq(&k, "gcp_taiwan") {
        "gcp_taiwan".to_owned()
    } else if lit_eq(&k, "aws") || lit_eq(&k, "tokyo") || lit_eq(&k, "aws_tokyo") {
        "aws_tokyo".to_owned()
    } else {
        string_of(&k)
    }
}

/// `1`, `true`, `yes` and `on` (trimmed, any ASCII case) are true.
pub open spec fn env_bool(raw: Seq<char>) -> bool {
    let k = ascii_lower(trim(raw));
    k == "1"@ || k == "true"@ || k == "yes"@ || k == "on"@
}

pub fn parse_env_bool(raw: &str) -> (r: bool)
    ensures
        r == env_bool(raw@),
{
    let k = ascii_lower_exec(&trim_exec(&chars_of(raw)));
    lit_eq(&k, "1") || lit_eq(&k, "true") || lit_eq(&k, "yes") || lit_eq(&k, "on")
}

/// A list setting: items separated by commas or newlines, trimmed, blanks
/// dropped.
pub open spec fn env_list(raw: Seq<char>) -> Seq<Seq<char>> {
    nonblank_trimmed(split_on(replace_char(raw, '\n', ','), ','))
}

pub fn parse_env_list(raw: &str) -> (r: Vec<String>)
    ensures
        string_views(r@) == env_list(raw@),
{
    let pieces = split_on_exec(&replace_char_exec(&chars_of(raw), '\n', ','), ',');
    let ghost pv = vec_views(pieces@);
    let mut out: Vec<Vec<char>> = Vec::new();
    let mut i: usize = 0;
    while i < pieces.len()
        invariant
            i <= pieces@.len(),
            pv == vec_views(pieces@),
            vec_views(out@) == nonblank_trimmed(pv.take(i as int)),
        decreases pieces@.len() - i,
    {
        assert(pv.take(i + 1).drop_last() =~= pv.take(i as int));
        assert(pv.take(i + 1).last() == pieces@[i as int]@);
        let t = trim_exec(&pieces[i]);
        let ghost before = vec_views(out@);
        if t.len() > 0 {
            out.push(t);
            assert(vec_views(out@) =~= before.push(t@));
        }
        i = i + 1;
    }
    assert(pv.take(pieces@.len() as int) =~= pv);
    strings_of(&out)
}

// ---------------------------------------------------------------------------
// Paths relative to the config file.
/// The non-empty components of a path other than `.`.
pub open spec fn kept_parts(parts: Seq<Seq<char>>) -> Seq<Seq<char>>
    decreases parts.len(),
{
    if parts.len() == 0 {
        seq![]
    } else {
        let rest = kept_parts(parts.drop_last());
        let x = parts.last();
        if x.len() > 0 && x != "."@ {
            rest.push(x)
        } else {
            rest
        }
    }
}

/// A Unix path rebuilt from its components (`components().collect()`):
/// repeated separators and `.` components vanish, except a leading `.` of a
/// relative path.
pub open spec fn normalized_path(p: Seq<char>) -> Seq<char> {
    let comps = kept_parts(split_on(p, '/'));
    if starts_with(p, "/"@) {
        "/"@ + join(comps, "/"@)
    } else if p == "."@ || starts_with(p, "./"@) {
        if comps.len() == 0 { "."@ } else { "./"@ + join(comps, "/"@) }
    } else {
        join(comps, "/"@)
    }
}

/// A configured path: blank stays empty, an absolute path is kept
/// (trimmed), a relative one is resolved against the config directory.
pub open spec fn absolutized(base_dir: Seq<char>, raw: Seq<char>) -> Seq<char> {
    let t = trim(raw);
    if t.len() == 0 {
        seq![]
    } else if starts_with(t, "/"@) {
        t
    } else {
        normalized_path(crate::bot::path_join(base_dir, t))
    }
}

fn normalized_path_exec(p: &Vec<char>) -> (r: Vec<char>)
    ensures
        r@ == normalized_path(p@),
{
    let parts = split_on_exec(p, '/');
    let ghost pv = vec_views(parts@);
    let dot = chars_of(".");
    let mut comps: Vec<Vec<char>> = Vec::new();
    let mut i: usize = 0;
    while i < parts.len()
        invariant
            i <= parts@.len(),
            pv == vec_views(parts@),
            dot@ == "."@,
            vec_views(comps@) == kept_parts(pv.take(i as int)),
        decreases parts@.len() - i,
    {
        assert(pv.take(i + 1).drop_last() =~= pv.take(i as int));
        assert(pv.take(i + 1).last() == parts@[i as int]@);
        let ghost before = vec_views(comps@);
        if parts[i].len() > 0 && !seq_eq_exec(&parts[i], &dot) {
            let piece = crate::text::sub_chars(&parts[i], 0, parts[i].len());
            assert(parts@[i as int]@.subrange(0, parts@[i as int]@.len() as int) =~= parts@[i as int]@);
            comps.push(piece);
            assert(vec_views(comps@) =~= before.push(pv[i as int]));
        }
        i = i + 1;
    }
    assert(pv.take(parts@.len() as int) =~= pv);
    let slash = chars_of("/");
    let joined = join_exec(&comps, &slash);
    if starts_with_exec(p, &slash) {
        let mut out = chars_of("/");
        append_chars(&mut out, &joined);
        out
    } else if seq_eq_exec(p, &dot) || starts_with_exec(p, &chars_of("./")) {
        if comps.len() == 0 {
            chars_of(".")
        } else {
            let mut out = chars_of("./");
            append_chars(&mut out, &joined);
            out
        }
    } else {
        joined
    }
}

pub fn absolutize_relative_path(base_dir: &str, raw: &str) -> (r: String)
    ensures
        r@ == absolutized(base_dir@, raw@),
{
    let t = trim_exec(&chars_of(raw));
    if t.len() == 0 {
        return String::new();
    }
    if starts_with_exec(&t, &chars_of("/")) {
        return string_of(&t);
    }
    let joined = crate::bot::path_join_exec(&chars_of(base_dir), &t);
    string_of(&normalized_path_exec(&joined))
}


// ---------------------------------------------------------------------------
// Deployment presets.
pub open spec fn field_view(name: Seq<char>, v: NodeView) -> (KeyView, NodeView) {
    (KeyView::Text(name), v)
}

pub open spec fn is_known_profile(p: Seq<char>) -> bool {
    p == "local_desktop"@ || p == "gcp_taiwan"@ || p == "aws_tokyo"@
}

pub open spec fn preset_browser(p: Seq<char>) -> NodeView {
    let local = p == "local_desktop"@;
    NodeView::Mapping(seq![
        field_view("engine"@, NodeView::Text(if local { "nodriver"@ } else { "playwright"@ })),
        field_view("headless"@, NodeView::Flag(!local)),
        field_view("user_data_dir"@, NodeView::Text(if local { "./chrome_profile"@ } else { "./chrome_profile_node_1"@ })),
        field_view("pre_warm"@, NodeView::Flag(true)),
        field_view("lang"@, NodeView::Text("zh-TW"@)),
        field_view("executable_path"@, NodeView::Text(if local { ""@ } else { "/usr/bin/chromium"@ })),
        field_view("api_mode"@, NodeView::Text("full"@)),
        field_view("turbo_mode"@, NodeView::Flag(true)),
    ])
}

pub open spec fn preset_captcha(p: Seq<char>) -> NodeView {
    let local = p == "local_desktop"@;
    NodeView::Mapping(seq![
        field_view("engine"@, NodeView::Text("ddddocr"@)),
        field_view("beta_model"@, NodeView::Flag(true)),
        field_view("char_ranges"@, NodeView::Encoded("0"@)),
        field_view("confidence_threshold"@, NodeView::Encoded("0.6"@)),
        field_view("max_attempts"@, NodeView::Encoded("5"@)),
        field_view("preprocess"@, NodeView::Flag(false)),
        field_view("custom_model_path"@, NodeView::Text("model/captcha_model.onnx"@)),
        field_view("custom_charset_path"@, NodeView::Text("model/charset.json"@)),
        field_view("collect_dir"@, NodeView::Text(if local { "./captcha_samples"@ } else { ""@ })),
    ])
}

pub open spec fn preset_notifications(p: Seq<char>) -> NodeView {
    let on = p != "aws_tokyo"@;
    NodeView::Mapping(seq![
        field_view("telegram"@, NodeView::Mapping(seq![field_view("enabled"@, NodeView::Flag(on))])),
        field_view("discord"@, NodeView::Mapping(seq![field_view("enabled"@, NodeView::Flag(on))])),
    ])
}

pub open spec fn preset_proxy() -> NodeView {
    NodeView::Mapping(seq![
        field_view("enabled"@, NodeView::Flag(false)),
        field_view("rotate"@, NodeView::Flag(true)),
        field_view("servers"@, NodeView::Encoded("[]"@)),
    ])
}

pub open spec fn preset_trace(p: Seq<char>) -> NodeView {
    let path = if p == "local_desktop"@ {
        "./logs/tixcraft_trace_local.jsonl"@
    } else if p == "gcp_taiwan"@ {
        "./logs/tixcraft_trace_cloud.jsonl"@
    } else {
        "./logs/tixcraft_trace_aws_tokyo.jsonl"@
    };
    NodeView::Mapping(seq![field_view("enabled"@, NodeView::Flag(true)), field_view("log_path"@, NodeView::Text(path))])
}

/// The settings a deployment profile brings (none for an unknown profile).
pub open spec fn preset(p: Seq<char>) -> Seq<(KeyView, NodeView)> {
    if is_known_profile(p) {
        seq![
            field_view("browser"@, preset_browser(p)),
            field_view("captcha"@, preset_captcha(p)),
            field_view("notifications"@, preset_notifications(p)),
            field_view("proxy"@, preset_proxy()),
            field_view("trace"@, preset_trace(p)),
        ]
    } else {
        seq![]
    }
}

fn text_node(s: &str) -> (r: YamlNode)
    ensures
        node_view(r) == NodeView::Text(s@),
{
    YamlNode::Text(s.to_owned())
}

fn field_of(name: &str, v: YamlNode) -> (r: (YamlKey, YamlNode))
    ensures
        crate::yaml::key_view(r.0) == KeyView::Text(name@),
        node_view(r.1) == node_view(v),
{
    (YamlKey::Text(name.to_owned()), v)
}

fn mapping_of(entries: Vec<(YamlKey, YamlNode)>, Ghost(expected): Ghost<Seq<(KeyView, NodeView)>>) -> (r: YamlNode)
    requires
        entries@.len() == expected.len(),
        forall|i: int| 0 <= i < expected.len() ==> (crate::yaml::key_view(#[trigger] entries@[i].0), node_view(entries@[i].1)) == expected[i],
    ensures
        node_view(r) == NodeView::Mapping(expected),
{
    proof {
        lemma_view_entries(entries@);
        assert(view_entries(entries@) =~= expected);
    }
    YamlNode::Mapping(entries)
}

fn preset_browser_exec(local: bool, Ghost(p): Ghost<Seq<char>>) -> (r: YamlNode)
    requires
        local == (p == "local_desktop"@),
    ensures
        node_view(r) == preset_browser(p),
{
    let mut v: Vec<(YamlKey, YamlNode)> = Vec::new();
    v.push(field_of("engine", text_node(if local { "nodriver" } else { "playwright" })));
    v.push(field_of("headless", YamlNode::Flag(!local)));
    v.push(field_of("user_data_dir", text_node(if local { "./chrome_profile" } else { "./chrome_profile_node_1" })));
    v.push(field_of("pre_warm", YamlNode::Flag(true)));
    v.push(field_of("lang", text_node("zh-TW")));
    v.push(field_of("executable_path", text_node(if local { "" } else { "/usr/bin/chromium" })));
    v.push(field_of("api_mode", text_node("full")));
    v.push(field_of("turbo_mode", YamlNode::Flag(true)));
    mapping_of(v, Ghost(mapping_entries(preset_browser(p))))
}

fn preset_captcha_exec(local: bool, Ghost(p): Ghost<Seq<char>>) -> (r: YamlNode)
    requires
        local == (p == "local_desktop"@),
    ensures
        node_view(r) == preset_captcha(p),
{
    let mut v: Vec<(YamlKey, YamlNode)> = Vec::new();
    v.push(field_of("engine", text_node("ddddocr")));
    v.push(field_of("beta_model", YamlNode::Flag(true)));
    v.push(field_of("char_ranges", YamlNode::Encoded("0".to_owned())));
    v.push(field_of("confidence_threshold", YamlNode::Encoded("0.6".to_owned())));
    v.push(field_of("max_attempts", YamlNode::Encoded("5".to_owned())));
    v.push(field_of("preprocess", YamlNode::Flag(false)));
    v.push(field_of("custom_model_path", text_node("model/captcha_model.onnx")));
    v.push(field_of("custom_charset_path", text_node("model/charset.json")));
    v.push(field_of("collect_dir", text_node(if local { "./captcha_samples" } else { "" })));
    mapping_of(v, Ghost(mapping_entries(preset_captcha(p))))
}

fn enabled_only(on: bool) -> (r: YamlNode)
    ensures
        node_view(r) == NodeView::Mapping(seq![field_view("enabled"@, NodeView::Flag(on))]),
{
    let mut v: Vec<(YamlKey, YamlNode)> = Vec::new();
    v.push(field_of("enabled", YamlNode::Flag(on)));
    let ghost e = seq![field_view("enabled"@, NodeView::Flag(on))];
    mapping_of(v, Ghost(e))
}

fn preset_notifications_exec(on: bool, Ghost(p): Ghost<Seq<char>>) -> (r: YamlNode)
    requires
        on == (p != "aws_tokyo"@),
    ensures
        node_view(r) == preset_notifications(p),
{
    let mut v: Vec<(YamlKey, YamlNode)> = Vec::new();
    v.push(field_of("telegram", enabled_only(on)));
    v.push(field_of("discord", enabled_only(on)));
    mapping_of(v, Ghost(mapping_entries(preset_notifications(p))))
}

fn preset_proxy_exec() -> (r: YamlNode)
    ensures
        node_view(r) == preset_proxy(),
{
    let mut v: Vec<(YamlKey, YamlNode)> = Vec::new();
    v.push(field_of("enabled", YamlNode::Flag(false)));
    v.push(field_of("rotate", YamlNode::Flag(true)));
    v.push(field_of("servers", YamlNode::Encoded("[]".to_owned())));
    mapping_of(v, Ghost(mapping_entries(preset_proxy())))
}

fn preset_trace_exec(path: &str, Ghost(p): Ghost<Seq<char>>) -> (r: YamlNode)
    requires
        path@ == if p == "local_desktop"@ {
            "./logs/tixcraft_trace_local.jsonl"@
        } else if p == "gcp_taiwan"@ {
            "./logs/tixcraft_trace_cloud.jsonl"@
        } else {
            "./logs/tixcraft_trace_aws_tokyo.jsonl"@
        },
    ensures
        node_view(r) == preset_trace(p),
{
    let mut v: Vec<(YamlKey, YamlNode)> = Vec::new();
    v.push(field_of("enabled", YamlNode::Flag(true)));
    v.push(field_of("log_path", text_node(path)));
    mapping_of(v, Ghost(mapping_entries(preset_trace(p))))
}

/// The preset mapping of a deployment profile.
pub fn deployment_preset(profile: &str) -> (r: Vec<(YamlKey, YamlNode)>)
    ensures
        view_entries(r@) == preset(profile@),
{
    let p = chars_of(profile);
    let local = lit_eq(&p, "local_desktop");
    let gcp = lit_eq(&p, "gcp_taiwan");
    let aws = lit_eq(&p, "aws_tokyo");
    let mut v: Vec<(YamlKey, YamlNode)> = Vec::new();
    if !(local || gcp || aws) {
        proof {
            lemma_view_entries(v@);
            assert(view_entries(v@) =~= preset(profile@));
        }
        return v;
    }
    let path = if local {
        "./logs/tixcraft_trace_local.jsonl"
    } else if gcp {
        "./logs/tixcraft_trace_cloud.jsonl"
    } else {
        "./logs/tixcraft_trace_aws_tokyo.jsonl"
    };
    v.push(field_of("browser", preset_browser_exec(local, Ghost(profile@))));
    v.push(field_of("captcha", preset_captcha_exec(local, Ghost(profile@))));
    v.push(field_of("notifications", preset_notifications_exec(!aws, Ghost(profile@))));
    v.push(field_of("proxy", preset_proxy_exec()));
    v.push(field_of("trace", preset_trace_exec(path, Ghost(profile@))));
    proof {
        lemma_view_entries(v@);
        assert(view_entries(v@) =~= preset(profile@));
    }
    v
}


// ---------------------------------------------------------------------------
// Loading: the YAML sections after presets and environment overrides.
/// The environment settings that override the config file (from `.env`, then
/// the process environment).
#[derive(Debug)]
pub struct EnvOverrides {
    pub deployment_profile: Option<String>,
    pub node_id: Option<String>,
    pub browser_engine: Option<String>,
    pub browser_headless: Option<String>,
    pub browser_executable_path: Option<String>,
    pub browser_api_mode: Option<String>,
    pub captcha_collect_dir: Option<String>,
    pub captcha_collect_enabled: Option<String>,
    pub telegram_bot_token: Option<String>,
    pub telegram_chat_id: Option<String>,
    pub discord_webhook_url: Option<String>,
    pub proxy_enabled: Option<String>,
    pub proxy_rotate: Option<String>,
    pub proxy_servers: Option<String>,
    pub trace_headers: Option<String>,
    pub trace_log_path: Option<String>,
    pub ticketmaster_api_key: Option<String>,
}

/// A setting's value when it is set and not blank.
pub open spec fn nonblank(o: Option<String>) -> Option<Seq<char>> {
    match o {
        Some(v) => if trim(v@).len() > 0 { Some(v@) } else { None },
        None => None,
    }
}

/// A setting's value, or empty.
pub open spec fn or_empty(o: Option<String>) -> Seq<char> {
    match o {
        Some(v) => v@,
        None => seq![],
    }
}

/// The YAML sections that the typed configuration is read from.
#[derive(Debug)]
pub struct ConfigSections {
    pub profile: String,
    pub events: YamlNode,
    pub browser: YamlNode,
    pub captcha: YamlNode,
    pub telegram: YamlNode,
    pub discord: YamlNode,
    pub proxy: YamlNode,
    pub trace: YamlNode,
    pub sessions: YamlNode,
}

/// A string field of a section of the file.
pub open spec fn section_string(root: Seq<(KeyView, NodeView)>, section: Seq<char>, field: Seq<char>) -> Option<Seq<char>> {
    match lookup(root, KeyView::Text(section)) {
        Some(v) => string_field(v, field),
        None => None,
    }
}

/// The deployment profile: the environment's, else the file's.
pub open spec fn profile_of(root: Seq<(KeyView, NodeView)>, env: EnvOverrides) -> Seq<char> {
    normalized_profile(match env.deployment_profile {
        Some(v) => v@,
        None => match section_string(root, "deployment"@, "profile"@) {
            Some(s) => s,
            None => seq![],
        },
    })
}

/// A section of the file merged onto the same section of the preset.
pub open spec fn merged_section(root: Seq<(KeyView, NodeView)>, profile: Seq<char>, name: Seq<char>) -> NodeView {
    merged(lookup(preset(profile), KeyView::Text(name)), lookup(root, KeyView::Text(name)))
}

pub open spec fn set_text_if(n: NodeView, key: Seq<char>, v: Option<Seq<char>>) -> NodeView {
    match v {
        Some(x) => with_field(n, key, NodeView::Text(x)),
        None => n,
    }
}

pub open spec fn set_flag_if(n: NodeView, key: Seq<char>, v: Option<String>) -> NodeView {
    match v {
        Some(x) => with_field(n, key, NodeView::Flag(env_bool(x@))),
        None => n,
    }
}

pub open spec fn browser_section(root: Seq<(KeyView, NodeView)>, env: EnvOverrides, profile: Seq<char>) -> NodeView {
    let b0 = merged_section(root, profile, "browser"@);
    let b1 = match nonblank(env.node_id) {
        Some(n) => with_field(b0, "user_data_dir"@, NodeView::Text("./chrome_profile_node_"@ + trim(n))),
        None => b0,
    };
    let b2 = set_text_if(b1, "engine"@, nonblank(env.browser_engine));
    let b3 = set_flag_if(b2, "headless"@, env.browser_headless);
    let b4 = set_text_if(b3, "executable_path"@, nonblank(env.browser_executable_path));
    set_text_if(b4, "api_mode"@, nonblank(env.browser_api_mode))
}

pub open spec fn captcha_section(root: Seq<(KeyView, NodeView)>, env: EnvOverrides, profile: Seq<char>) -> NodeView {
    let c0 = merged_section(root, profile, "captcha"@);
    match nonblank(env.captcha_collect_dir) {
        Some(d) => with_field(c0, "collect_dir"@, NodeView::Text(d)),
        None => {
            let enabled = match env.captcha_collect_enabled {
                Some(v) => env_bool(v@),
                None => false,
            };
            let current = match string_field(c0, "collect_dir"@) {
                Some(d) => d,
                None => seq![],
            };
            if enabled && trim(current).len() == 0 {
                with_field(c0, "collect_dir"@, NodeView::Text("./captcha_samples"@))
            } else {
                c0
            }
        },
    }
}

pub open spec fn proxy_section(root: Seq<(KeyView, NodeView)>, env: EnvOverrides, profile: Seq<char>) -> NodeView {
    let p0 = merged_section(root, profile, "proxy"@);
    let p1 = set_flag_if(p0, "enabled"@, env.proxy_enabled);
    let p2 = set_flag_if(p1, "rotate"@, env.proxy_rotate);
    match nonblank(env.proxy_servers) {
        Some(v) => with_field(p2, "servers"@, NodeView::Texts(env_list(v))),
        None => p2,
    }
}

pub open spec fn trace_section(root: Seq<(KeyView, NodeView)>, env: EnvOverrides, profile: Seq<char>) -> NodeView {
    let t0 = merged_section(root, profile, "trace"@);
    let t1 = set_flag_if(t0, "enabled"@, env.trace_headers);
    set_text_if(t1, "log_path"@, nonblank(env.trace_log_path))
}

/// A list section of the file, or an empty list.
pub open spec fn list_section(root: Seq<(KeyView, NodeView)>, name: Seq<char>) -> NodeView {
    match lookup(root, KeyView::Text(name)) {
        Some(v) => v,
        None => NodeView::Encoded("[]"@),
    }
}

fn root_get(root: &YamlNode, key: &str) -> (r: Option<YamlNode>)
    ensures
        opt_node_view(r) == lookup(mapping_entries(node_view(*root)), KeyView::Text(key@)),
{
    match root {
        YamlNode::Mapping(entries) => get_field(entries, key),
        _ => {
            proof {
                crate::text::lemma_first_in_none(0, 0, crate::yaml::key_pred(seq![], KeyView::Text(key@)));
            }
            None
        },
    }
}

fn nonblank_exec(o: &Option<String>) -> (r: Option<String>)
    ensures
        crate::parser::opt_view(r) == nonblank(*o),
{
    match o {
        Some(v) => if !is_blank(&chars_of(v.as_str())) { Some(v.clone()) } else { None },
        None => None,
    }
}

fn set_text_if_exec(n: YamlNode, key: &str, v: Option<String>) -> (r: YamlNode)
    ensures
        node_view(r) == set_text_if(node_view(n), key@, crate::parser::opt_view(v)),
{
    match v {
        Some(x) => set_field(n, key, YamlNode::Text(x)),
        None => n,
    }
}

fn set_flag_if_exec(n: YamlNode, key: &str, v: &Option<String>) -> (r: YamlNode)
    ensures
        node_view(r) == set_flag_if(node_view(n), key@, *v),
{
    match v {
        Some(x) => set_field(n, key, YamlNode::Flag(parse_env_bool(x.as_str()))),
        None => n,
    }
}

fn merged_section_exec(root: &YamlNode, preset_entries: &Vec<(YamlKey, YamlNode)>, name: &str, Ghost(profile): Ghost<Seq<char>>) -> (r: YamlNode)
    requires
        view_entries(preset_entries@) == preset(profile),
    ensures
        node_view(r) == merged_section(mapping_entries(node_view(*root)), profile, name@),
{
    deep_merge(get_field(preset_entries, name), root_get(root, name))
}

fn list_section_exec(root: &YamlNode, name: &str) -> (r: YamlNode)
    ensures
        node_view(r) == list_section(mapping_entries(node_view(*root)), name@),
{
    match root_get(root, name) {
        Some(v) => v,
        None => YamlNode::Encoded("[]".to_owned()),
    }
}

/// Reads the config file's sections: the deployment profile (environment
/// first), each section merged onto its preset, then the environment
/// overrides of single settings.
pub fn prepare_sections(root: &YamlNode, env: &EnvOverrides) -> (r: ConfigSections)
    ensures
        ({
            let rt = mapping_entries(node_view(*root));
            let p = profile_of(rt, *env);
            &&& r.profile@ == p
            &&& node_view(r.events) == list_section(rt, "events"@)
            &&& node_view(r.browser) == browser_section(rt, *env, p)
            &&& node_view(r.captcha) == captcha_section(rt, *env, p)
            &&& node_view(r.telegram) == field_or_empty(merged_section(rt, p, "notifications"@), "telegram"@)
            &&& node_view(r.discord) == field_or_empty(merged_section(rt, p, "notifications"@), "discord"@)
            &&& node_view(r.proxy) == proxy_section(rt, *env, p)
            &&& node_view(r.trace) == trace_section(rt, *env, p)
            &&& node_view(r.sessions) == list_section(rt, "sessions"@)
        }),
{
    let ghost rt = mapping_entries(node_view(*root));
    let raw_profile = match &env.deployment_profile {
        Some(v) => v.clone(),
        None => {
            let from_file = match root_get(root, "deployment") {
                Some(d) => yaml_string(&d, "profile"),
                None => None,
            };
            match from_file {
                Some(s) => s,
                None => String::new(),
            }
        },
    };
    let profile = normalize_deployment_profile(raw_profile.as_str());
    let ghost p = profile@;
    let preset_entries = deployment_preset(profile.as_str());

    let events = list_section_exec(root, "events");

    let mut browser = merged_section_exec(root, &preset_entries, "browser", Ghost(p));
    match nonblank_exec(&env.node_id) {
        Some(n) => {
            let t = trim_exec(&chars_of(n.as_str()));
            let mut dir = chars_of("./chrome_profile_node_");
            append_chars(&mut dir, &t);
            browser = set_field(browser, "user_data_dir", YamlNode::Text(string_of(&dir)));
        },
        None => {},
    }
    browser = set_text_if_exec(browser, "engine", nonblank_exec(&env.browser_engine));
    browser = set_flag_if_exec(browser, "headless", &env.browser_headless);
    browser = set_text_if_exec(browser, "executable_path", nonblank_exec(&env.browser_executable_path));
    browser = set_text_if_exec(browser, "api_mode", nonblank_exec(&env.browser_api_mode));

    let mut captcha = merged_section_exec(root, &preset_entries, "captcha", Ghost(p));
    match nonblank_exec(&env.captcha_collect_dir) {
        Some(d) => {
            captcha = set_field(captcha, "collect_dir", YamlNode::Text(d));
        },
        None => {
            let enabled = match &env.captcha_collect_enabled {
                Some(v) => parse_env_bool(v.as_str()),
                None => false,
            };
            let current = match yaml_string(&captcha, "collect_dir") {
                Some(d) => d,
                None => String::new(),
            };
            if enabled && is_blank(&chars_of(current.as_str())) {
                captcha = set_field(captcha, "collect_dir", text_node("./captcha_samples"));
            }
        },
    }

    let notifications = merged_section_exec(root, &preset_entries, "notifications", Ghost(p));
    let telegram = section_from_value(&notifications, "telegram");
    let discord = section_from_value(&notifications, "discord");

    let mut proxy = merged_section_exec(root, &preset_entries, "proxy", Ghost(p));
    proxy = set_flag_if_exec(proxy, "enabled", &env.proxy_enabled);
    proxy = set_flag_if_exec(proxy, "rotate", &env.proxy_rotate);
    match nonblank_exec(&env.proxy_servers) {
        Some(v) => {
            proxy = set_field(proxy, "servers", YamlNode::Texts(parse_env_list(v.as_str())));
        },
        None => {},
    }

    let mut trace = merged_section_exec(root, &preset_entries, "trace", Ghost(p));
    trace = set_flag_if_exec(trace, "enabled", &env.trace_headers);
    trace = set_text_if_exec(trace, "log_path", nonblank_exec(&env.trace_log_path));

    let sessions = list_section_exec(root, "sessions");

    ConfigSections { profile, events, browser, captcha, telegram, discord, proxy, trace, sessions }
}


/// The sections as read into their types.
#[derive(Debug)]
pub struct ParsedSections {
    pub events: Vec<EventConfig>,
    pub browser: BrowserConfig,
    pub captcha: CaptchaConfig,
    pub telegram: TelegramConfig,
    pub discord: DiscordConfig,
    pub proxy: ProxyConfig,
    pub trace: TraceConfig,
    pub sessions: Vec<SessionConfig>,
}

/// The sessions to use: those configured, or one default session on the
/// browser profile.
pub open spec fn sessions_or_default(sessions: Seq<SessionConfig>, browser_dir: Seq<char>) -> Seq<(Seq<char>, Seq<char>, Seq<char>, Seq<char>)> {
    if sessions.len() == 0 {
        seq![("default"@, browser_dir, Seq::<char>::empty(), Seq::<char>::empty())]
    } else {
        sessions.map_values(|x: SessionConfig| (x.name@, x.user_data_dir@, x.proxy_server@, x.cookie_file@))
    }
}

/// A resolved path is kept as it is.
pub proof fn lemma_absolute_path_kept(base_dir: Seq<char>, p: Seq<char>)
    requires
        trim(p) == p,
        starts_with(p, "/"@),
    ensures
        absolutized(base_dir, p) == p,
{
    reveal_strlit("/");
    assert(p.len() > 0);
}

/// Completes the configuration: paths resolved against the config
/// directory, notification secrets from the environment (the file's chat id
/// first), and a default session when none is configured.
pub fn finish_config(parsed: ParsedSections, env: &EnvOverrides, profile: String, base_dir: String) -> (r: AppConfig)
    ensures
        r.events@ == parsed.events@,
        r.deployment.profile == profile,
        r.base_dir == base_dir,
        r.browser.engine == parsed.browser.engine,
        r.browser.headless == parsed.browser.headless,
        r.browser.user_data_dir@ == absolutized(base_dir@, parsed.browser.user_data_dir@),
        r.browser.pre_warm == parsed.browser.pre_warm,
        r.browser.lang == parsed.browser.lang,
        r.browser.executable_path == parsed.browser.executable_path,
        r.browser.api_mode == parsed.browser.api_mode,
        r.browser.turbo_mode == parsed.browser.turbo_mode,
        r.captcha.engine == parsed.captcha.engine,
        r.captcha.beta_model == parsed.captcha.beta_model,
        r.captcha.char_ranges == parsed.captcha.char_ranges,
        r.captcha.confidence_threshold_bits == parsed.captcha.confidence_threshold_bits,
        r.captcha.max_attempts == parsed.captcha.max_attempts,
        r.captcha.preprocess == parsed.captcha.preprocess,
        r.captcha.custom_model_path@ == absolutized(base_dir@, parsed.captcha.custom_model_path@),
        r.captcha.custom_charset_path@ == absolutized(base_dir@, parsed.captcha.custom_charset_path@),
        r.captcha.collect_dir@ == absolutized(base_dir@, parsed.captcha.collect_dir@),
        r.notifications.telegram.enabled == parsed.telegram.enabled,
        r.notifications.telegram.bot_token@ == or_empty(env.telegram_bot_token),
        r.notifications.telegram.chat_id@ == if trim(parsed.telegram.chat_id@).len() > 0 {
            parsed.telegram.chat_id@
        } else {
            or_empty(env.telegram_chat_id)
        },
        r.notifications.discord.enabled == parsed.discord.enabled,
        r.notifications.discord.webhook_url@ == or_empty(env.discord_webhook_url),
        r.proxy.enabled == parsed.proxy.enabled,
        r.proxy.rotate == parsed.proxy.rotate,
        string_views(r.proxy.servers@) == string_views(parsed.proxy.servers@),
        r.trace.enabled == parsed.trace.enabled,
        r.trace.log_path@ == absolutized(base_dir@, parsed.trace.log_path@),
        r.ticketmaster_api_key@ == or_empty(env.ticketmaster_api_key),
        ({
            let s0 = sessions_or_default(parsed.sessions@, r.browser.user_data_dir@);
            &&& r.sessions@.len() == s0.len()
            &&& forall|i: int| 0 <= i < s0.len() ==> {
                &&& (#[trigger] r.sessions@[i]).name@ == s0[i].0
                &&& r.sessions@[i].user_data_dir@ == absolutized(base_dir@, s0[i].1)
                &&& r.sessions@[i].proxy_server@ == s0[i].2
                &&& r.sessions@[i].cookie_file@ == absolutized(base_dir@, s0[i].3)
            }
        }),
{
    let mut browser = parsed.browser;
    browser.user_data_dir = absolutize_relative_path(base_dir.as_str(), browser.user_data_dir.as_str());
    let mut captcha = parsed.captcha;
    captcha.custom_model_path = absolutize_relative_path(base_dir.as_str(), captcha.custom_model_path.as_str());
    captcha.custom_charset_path = absolutize_relative_path(base_dir.as_str(), captcha.custom_charset_path.as_str());
    captcha.collect_dir = absolutize_relative_path(base_dir.as_str(), captcha.collect_dir.as_str());
    let chat_id = if !is_blank(&chars_of(parsed.telegram.chat_id.as_str())) {
        parsed.telegram.chat_id
    } else {
        or_empty_exec(&env.telegram_chat_id)
    };
    let notifications = NotificationConfig {
        telegram: TelegramConfig {
            enabled: parsed.telegram.enabled,
            bot_token: or_empty_exec(&env.telegram_bot_token),
            chat_id,
        },
        discord: DiscordConfig { enabled: parsed.discord.enabled, webhook_url: or_empty_exec(&env.discord_webhook_url) },
    };
    let mut trace = parsed.trace;
    trace.log_path = absolutize_relative_path(base_dir.as_str(), trace.log_path.as_str());
    let mut sessions = parsed.sessions;
    let ghost s0 = sessions_or_default(sessions@, browser.user_data_dir@);
    if sessions.len() == 0 {
        sessions.push(SessionConfig {
            name: "default".to_owned(),
            user_data_dir: browser.user_data_dir.clone(),
            proxy_server: String::new(),
            cookie_file: String::new(),
        });
    }
    assert(sessions@.len() == s0.len());
    assert forall|i: int| 0 <= i < s0.len() implies {
        &&& (#[trigger] sessions@[i]).name@ == s0[i].0
        &&& sessions@[i].user_data_dir@ == s0[i].1
        &&& sessions@[i].proxy_server@ == s0[i].2
        &&& sessions@[i].cookie_file@ == s0[i].3
    } by {}
    let mut out: Vec<SessionConfig> = Vec::new();
    let mut i: usize = 0;
    while i < sessions.len()
        invariant
            i <= sessions@.len(),
            s0.len() == sessions@.len(),
            out@.len() == i,
            forall|j: int| 0 <= j < s0.len() ==> {
                &&& (#[trigger] sessions@[j]).name@ == s0[j].0
                &&& sessions@[j].user_data_dir@ == s0[j].1
                &&& sessions@[j].proxy_server@ == s0[j].2
                &&& sessions@[j].cookie_file@ == s0[j].3
            },
            forall|j: int| 0 <= j < i ==> {
                &&& (#[trigger] out@[j]).name@ == s0[j].0
                &&& out@[j].user_data_dir@ == absolutized(base_dir@, s0[j].1)
                &&& out@[j].proxy_server@ == s0[j].2
                &&& out@[j].cookie_file@ == absolutized(base_dir@, s0[j].3)
            },
        decreases sessions@.len() - i,
    {
        let s = &sessions[i];
        out.push(SessionConfig {
            name: s.name.clone(),
            user_data_dir: absolutize_relative_path(base_dir.as_str(), s.user_data_dir.as_str()),
            proxy_server: s.proxy_server.clone(),
            cookie_file: absolutize_relative_path(base_dir.as_str(), s.cookie_file.as_str()),
        });
        i = i + 1;
    }
    AppConfig {
        events: parsed.events,
        deployment: DeploymentConfig { profile },
        browser,
        captcha,
        notifications,
        proxy: parsed.proxy,
        trace,
        sessions: out,
        ticketmaster_api_key: or_empty_exec(&env.ticketmaster_api_key),
        base_dir,
    }
}

fn or_empty_exec(o: &Option<String>) -> (r: String)
    ensures
        r@ == or_empty(*o),
{
    match o {
        Some(v) => v.clone(),
        None => String::new(),
    }
}


// ---------------------------------------------------------------------------
// What the environment and the file decide.
proof fn lemma_browser_keys_distinct()
    ensures
        "user_data_dir"@ != "engine"@,
        "user_data_dir"@ != "headless"@,
        "user_data_dir"@ != "executable_path"@,
        "user_data_dir"@ != "api_mode"@,
        "engine"@ != "headless"@,
        "engine"@ != "executable_path"@,
        "engine"@ != "api_mode"@,
        "headless"@ != "executable_path"@,
        "headless"@ != "api_mode"@,
        "executable_path"@ != "api_mode"@,
{
    reveal_strlit("user_data_dir");
    reveal_strlit("engine");
    reveal_strlit("headless");
    reveal_strlit("executable_path");
    reveal_strlit("api_mode");
    assert("user_data_dir"@[0] != "engine"@[0]);
    assert("user_data_dir"@[0] != "headless"@[0]);
    assert("user_data_dir"@[0] != "executable_path"@[0]);
    assert("user_data_dir"@[0] != "api_mode"@[0]);
    assert("engine"@[0] != "headless"@[0]);
    assert("engine"@[1] != "executable_path"@[1]);
    assert("engine"@[0] != "api_mode"@[0]);
    assert("headless"@[0] != "executable_path"@[0]);
    assert("headless"@[0] != "api_mode"@[0]);
    assert("executable_path"@[0] != "api_mode"@[0]);
}

/// The browser settings of the environment win over the file and the
/// preset: `BROWSER_ENGINE`, `BROWSER_API_MODE`, `BROWSER_HEADLESS`, and
/// `NODE_ID`, which picks the node's own browser profile.
pub proof fn lemma_env_browser_settings_win(root: Seq<(KeyView, NodeView)>, env: EnvOverrides, p: Seq<char>)
    ensures
        ({
            let b = browser_section(root, env, p);
            &&& nonblank(env.browser_engine) matches Some(e) ==> string_field(b, "engine"@) == Some(e)
            &&& nonblank(env.browser_api_mode) matches Some(a) ==> string_field(b, "api_mode"@) == Some(a)
            &&& env.browser_headless matches Some(h) ==> lookup(mapping_entries(b), KeyView::Text("headless"@)) == Some(NodeView::Flag(env_bool(h@)))
            &&& nonblank(env.node_id) matches Some(n) ==> string_field(b, "user_data_dir"@) == Some("./chrome_profile_node_"@ + trim(n))
        }),
{
    lemma_browser_keys_distinct();
    let b0 = merged_section(root, p, "browser"@);
    let b1 = match nonblank(env.node_id) {
        Some(n) => with_field(b0, "user_data_dir"@, NodeView::Text("./chrome_profile_node_"@ + trim(n))),
        None => b0,
    };
    let b2 = set_text_if(b1, "engine"@, nonblank(env.browser_engine));
    let b3 = set_flag_if(b2, "headless"@, env.browser_headless);
    let b4 = set_text_if(b3, "executable_path"@, nonblank(env.browser_executable_path));
    let b5 = set_text_if(b4, "api_mode"@, nonblank(env.browser_api_mode));
    let t_dir = KeyView::Text("user_data_dir"@);
    let t_engine = KeyView::Text("engine"@);
    let t_headless = KeyView::Text("headless"@);
    let t_api = KeyView::Text("api_mode"@);
    match nonblank(env.node_id) {
        Some(n) => lemma_with_field_same(b0, "user_data_dir"@, NodeView::Text("./chrome_profile_node_"@ + trim(n))),
        None => {},
    }
    match nonblank(env.browser_engine) {
        Some(e) => {
            lemma_with_field_same(b1, "engine"@, NodeView::Text(e));
            lemma_with_field_other(b1, "engine"@, NodeView::Text(e), t_dir);
        },
        None => {},
    }
    match env.browser_headless {
        Some(h) => {
            lemma_with_field_same(b2, "headless"@, NodeView::Flag(env_bool(h@)));
            lemma_with_field_other(b2, "headless"@, NodeView::Flag(env_bool(h@)), t_dir);
            lemma_with_field_other(b2, "headless"@, NodeView::Flag(env_bool(h@)), t_engine);
        },
        None => {},
    }
    match nonblank(env.browser_executable_path) {
        Some(x) => {
            lemma_with_field_other(b3, "executable_path"@, NodeView::Text(x), t_dir);
            lemma_with_field_other(b3, "executable_path"@, NodeView::Text(x), t_engine);
            lemma_with_field_other(b3, "executable_path"@, NodeView::Text(x), t_headless);
        },
        None => {},
    }
    match nonblank(env.browser_api_mode) {
        Some(a) => {
            lemma_with_field_same(b4, "api_mode"@, NodeView::Text(a));
            lemma_with_field_other(b4, "api_mode"@, NodeView::Text(a), t_dir);
            lemma_with_field_other(b4, "api_mode"@, NodeView::Text(a), t_engine);
            lemma_with_field_other(b4, "api_mode"@, NodeView::Text(a), t_headless);
        },
        None => {},
    }
}

proof fn lemma_preset_browser_unique(p: Seq<char>)
    ensures
        unique_keys(mapping_entries(preset_browser(p))),
{
    reveal_strlit("engine");
    reveal_strlit("headless");
    reveal_strlit("user_data_dir");
    reveal_strlit("pre_warm");
    reveal_strlit("lang");
    reveal_strlit("executable_path");
    reveal_strlit("api_mode");
    reveal_strlit("turbo_mode");
    let e = mapping_entries(preset_browser(p));
    assert forall|i: int, j: int| 0 <= i < j < e.len() implies #[trigger] e[i].0 != #[trigger] e[j].0 by {
        let a = e[i].0->Text_0;
        let b = e[j].0->Text_0;
        if a.len() == b.len() {
            assert(a[0] != b[0] || a[1] != b[1]);
        }
    }
}

/// A browser setting of the file wins over the deployment preset unless
/// the environment sets it: here the API mode.
pub proof fn lemma_file_api_mode_beats_preset(root: Seq<(KeyView, NodeView)>, env: EnvOverrides, p: Seq<char>, section: Seq<(KeyView, NodeView)>, mode: Seq<char>)
    requires
        lookup(root, KeyView::Text("browser"@)) == Some(NodeView::Mapping(section)),
        unique_keys(section),
        lookup(section, KeyView::Text("api_mode"@)) == Some(NodeView::Text(mode)),
        nonblank(env.browser_api_mode) is None,
    ensures
        string_field(browser_section(root, env, p), "api_mode"@) == Some(mode),
{
    lemma_browser_keys_distinct();
    let t_api = KeyView::Text("api_mode"@);
    let base = lookup(preset(p), KeyView::Text("browser"@));
    let b0 = merged_section(root, p, "browser"@);
    if is_known_profile(p) {
        reveal_strlit("browser");
        crate::text::lemma_first_in_found(0, preset(p).len() as int, crate::yaml::key_pred(preset(p), KeyView::Text("browser"@)), 0);
        assert(base == Some(preset_browser(p)));
        lemma_preset_browser_unique(p);
        lemma_merge_lookup(mapping_entries(preset_browser(p)), section, t_api);
    } else {
        crate::text::lemma_first_in_none(0, 0, crate::yaml::key_pred(seq![], KeyView::Text("browser"@)));
        assert(b0 == NodeView::Mapping(section));
    }
    assert(lookup(mapping_entries(b0), t_api) == Some(NodeView::Text(mode)));
    let b1 = match nonblank(env.node_id) {
        Some(n) => with_field(b0, "user_data_dir"@, NodeView::Text("./chrome_profile_node_"@ + trim(n))),
        None => b0,
    };
    let b2 = set_text_if(b1, "engine"@, nonblank(env.browser_engine));
    let b3 = set_flag_if(b2, "headless"@, env.browser_headless);
    match nonblank(env.node_id) {
        Some(n) => lemma_with_field_other(b0, "user_data_dir"@, NodeView::Text("./chrome_profile_node_"@ + trim(n)), t_api),
        None => {},
    }
    match nonblank(env.browser_engine) {
        Some(e) => lemma_with_field_other(b1, "engine"@, NodeView::Text(e), t_api),
        None => {},
    }
    match env.browser_headless {
        Some(h) => lemma_with_field_other(b2, "headless"@, NodeView::Flag(env_bool(h@)), t_api),
        None => {},
    }
    match nonblank(env.browser_executable_path) {
        Some(x) => lemma_with_field_other(b3, "executable_path"@, NodeView::Text(x), t_api),
        None => {},
    }
}

} // verus!
