//! Proxy pool: a fixed or round-robin choice among the configured servers,
//! with a per-session override and a random session id filled into the
//! `{session_id}` placeholder.

use vstd::prelude::*;
use crate::config::{ProxyConfig, SessionConfig};
use crate::text::{chars_of, contains, contains_exec, is_blank, replace_all, replace_all_exec, string_of, string_views, sub_chars, trim};

verus! {

/// The placeholder that a server URL may hold.
pub open spec fn session_placeholder() -> Seq<char> {
    "{session_id}"@
}

pub open spec fn is_lower_hex(c: char) -> bool {
    ('0' <= c && c <= '9') || ('a' <= c && c <= 'f')
}

/// A session id: eight lowercase hexadecimal digits.
pub open spec fn is_session_id(id: Seq<char>) -> bool {
    id.len() == 8 && forall|i: int| 0 <= i < 8 ==> is_lower_hex(#[trigger] id[i])
}

/// `out` is `server` with its placeholders filled: unchanged when it holds
/// none, otherwise every occurrence replaced by one and the same session id.
pub open spec fn expands_to(server: Seq<char>, out: Seq<char>) -> bool {
    if contains(server, session_placeholder()) {
        exists|id: Seq<char>| is_session_id(id) && out == #[trigger] replace_all(server, session_placeholder(), id)
    } else {
        out == server
    }
}

/// Calls `Uuid::new_v4().simple().to_string()`: a random UUID written as 32
/// lowercase hexadecimal digits without hyphens.
#[verifier::external_body]
fn random_simple_uuid() -> (r: String)
    ensures
        r@.len() == 32,
        forall|i: int| 0 <= i < 32 ==> is_lower_hex(#[trigger] r@[i]),
{
    uuid::Uuid::new_v4().simple().to_string()
}

/// Every placeholder of `server` replaced by the first eight characters of
/// `token`.
pub fn fill_session_id(server: &str, token: &str) -> (r: String)
    requires
        token@.len() >= 8,
    ensures
        r@ == replace_all(server@, session_placeholder(), token@.take(8)),
{
    let s = chars_of(server);
    let t = chars_of(token);
    let id = sub_chars(&t, 0, 8);
    let ph = chars_of("{session_id}");
    proof {
        reveal_strlit("{session_id}");
        assert(id@ =~= token@.take(8));
    }
    let out = replace_all_exec(&s, &ph, &id);
    string_of(&out)
}

fn expand_session_id(server: String) -> (r: String)
    ensures
        expands_to(server@, r@),
{
    let s = chars_of(server.as_str());
    let ph = chars_of("{session_id}");
    if !contains_exec(&s, &ph) {
        return server;
    }
    let token = random_simple_uuid();
    let r = fill_session_id(server.as_str(), token.as_str());
    proof {
        let id = token@.take(8);
        assert(is_session_id(id));
        assert(r@ == replace_all(server@, session_placeholder(), id));
    }
    r
}

/// Round-robin cursor step (`fetch_add` wraps around).
pub open spec fn advance(cursor: usize) -> usize {
    if cursor == usize::MAX {
        0
    } else {
        (cursor + 1) as usize
    }
}

/// Index of the server that a rotating pool with `len` servers picks at
/// `cursor`.
pub open spec fn rotation_slot(cursor: int, len: int) -> int {
    cursor % len
}

/// The first pick of a fresh pool: the first server, when the pool is
/// enabled and not empty.
pub open spec fn first_pick(config: ProxyConfig) -> Option<Seq<char>> {
    if config.enabled && config.servers@.len() > 0 {
        Some(config.servers@[0]@)
    } else {
        None
    }
}

/// A pool of proxy servers; with `rotate` it hands them out in turn.
#[derive(Debug)]
pub struct ProxyPool {
    config: ProxyConfig,
    next_index: usize,
}

impl ProxyPool {
    pub closed spec fn enabled(&self) -> bool {
        self.config.enabled
    }

    pub closed spec fn rotates(&self) -> bool {
        self.config.rotate
    }

    pub closed spec fn servers(&self) -> Seq<Seq<char>> {
        string_views(self.config.servers@)
    }

    /// Position of the round-robin cursor.
    pub closed spec fn cursor(&self) -> usize {
        self.next_index
    }

    pub open spec fn is_available(&self) -> bool {
        self.enabled() && self.servers().len() > 0
    }

    /// The server (before placeholder expansion) that `next` hands out now.
    pub open spec fn pick(&self) -> Option<Seq<char>> {
        if !self.is_available() {
            None
        } else if self.rotates() {
            Some(self.servers()[rotation_slot(self.cursor() as int, self.servers().len() as int)])
        } else {
            Some(self.servers()[0])
        }
    }

    /// The pool as it stands after one `next`.
    pub open spec fn stepped(&self, after: &Self) -> bool {
        &&& after.enabled() == self.enabled()
        &&& after.rotates() == self.rotates()
        &&& after.servers() == self.servers()
        &&& after.cursor() == if self.is_available() && self.rotates() {
            advance(self.cursor())
        } else {
            self.cursor()
        }
    }

    pub fn new(config: ProxyConfig) -> (r: Self)
        ensures
            r.enabled() == config.enabled,
            r.rotates() == config.rotate,
            r.servers() == string_views(config.servers@),
            r.cursor() == 0,
            r.pick() == first_pick(config),
    {
        let r = ProxyPool { config, next_index: 0 };
        proof {
            if r.is_available() {
                assert(string_views(r.config.servers@)[0] == r.config.servers@[0]@);
                assert(rotation_slot(0, r.servers().len() as int) == 0);
            }
        }
        r
    }

    pub fn available(&self) -> (r: bool)
        ensures
            r == self.is_available(),
    {
        self.config.enabled && self.config.servers.len() > 0
    }

    /// The next proxy: `None` when the pool is disabled or empty; otherwise
    /// the first server, or with `rotate` the server under the cursor, which
    /// then moves on.
    pub fn next(&mut self) -> (r: Option<String>)
        ensures
            old(self).stepped(&*final(self)),
            match old(self).pick() {
                None => r is None,
                Some(server) => r is Some && expands_to(server, r->0@),
            },
    {
        if !self.available() {
            return None;
        }
        let len = self.config.servers.len();
        let selected = if self.config.rotate {
            let index = self.next_index;
            self.next_index = self.next_index.wrapping_add(1);
            self.config.servers[index % len].clone()
        } else {
            self.config.servers[0].clone()
        };
        Some(expand_session_id(selected))
    }

    /// A session's own proxy wins over the pool; otherwise `next`.
    pub fn resolve_for_session(&mut self, session: &SessionConfig) -> (r: Option<String>)
        ensures
            trim(session.proxy_server@).len() > 0 ==> {
                &&& *final(self) == *old(self)
                &&& r is Some
                &&& expands_to(session.proxy_server@, r->0@)
            },
            trim(session.proxy_server@).len() == 0 ==> {
                &&& old(self).stepped(&*final(self))
                &&& match old(self).pick() {
                    None => r is None,
                    Some(server) => r is Some && expands_to(server, r->0@),
                }
            },
    {
        let own = chars_of(session.proxy_server.as_str());
        if !is_blank(&own) {
            return Some(expand_session_id(session.proxy_server.clone()));
        }
        self.next()
    }
}

/// Round robin reaches every server: from any cursor, the `len` picks of
/// `len` consecutive calls cover each server index.
pub proof fn lemma_rotation_covers_every_server(cursor: int, len: int, j: int)
    requires
        cursor >= 0,
        len > 0,
        0 <= j < len,
    ensures
        exists|k: int| 0 <= k < len && #[trigger] rotation_slot(cursor + k, len) == j,
{
    let c = cursor % len;
    let k = if j >= c { j - c } else { j - c + len };
    assert(0 <= c < len) by (nonlinear_arith)
        requires
            cursor >= 0,
            len > 0,
            c == cursor % len,
    ;
    assert((cursor + k) % len == j) by (nonlinear_arith)
        requires
            cursor >= 0,
            len > 0,
            c == cursor % len,
            0 <= c < len,
            0 <= j < len,
            k == if j >= c { j - c } else { j - c + len },
    {
        vstd::arithmetic::div_mod::lemma_fundamental_div_mod(cursor, len);
        let q = cursor / len;
        assert(cursor == len * q + c);
        if j >= c {
            assert(cursor + k == len * q + j);
            vstd::arithmetic::div_mod::lemma_mod_multiples_vanish(q, j, len);
        } else {
            assert(cursor + k == len * (q + 1) + j);
            vstd::arithmetic::div_mod::lemma_mod_multiples_vanish(q + 1, j, len);
        }
    }
    assert(rotation_slot(cursor + k, len) == j);
}

/// Without `rotate` the pool always picks its first server, and the cursor
/// stays where it was.
pub proof fn lemma_fixed_pool_is_stable(pool: ProxyPool, after: ProxyPool)
    requires
        pool.is_available(),
        !pool.rotates(),
        pool.stepped(&after),
    ensures
        after.pick() == pool.pick(),
        pool.pick() == Some(pool.servers()[0]),
{
}


/// The cursor of a pool after `i` steps from a fresh one: `i` with `rotate`,
/// still 0 without.
proof fn lemma_steps_from_fresh(pools: Seq<ProxyPool>, i: int)
    requires
        0 <= i < pools.len(),
        pools.len() - 1 <= usize::MAX,
        pools[0].cursor() == 0,
        pools[0].is_available(),
        forall|j: int| 0 <= j < pools.len() - 1 ==> #[trigger] pools[j].stepped(&pools[j + 1]),
    ensures
        pools[i].enabled() == pools[0].enabled(),
        pools[i].rotates() == pools[0].rotates(),
        pools[i].servers() == pools[0].servers(),
        pools[i].cursor() == if pools[0].rotates() { i } else { 0 },
    decreases i,
{
    if i > 0 {
        lemma_steps_from_fresh(pools, i - 1);
        let j = i - 1;
        assert(pools[j].stepped(&pools[j + 1]));
        assert(j + 1 == i);
    }
}

/// Round robin, call by call: on a fresh pool, the call that follows `k`
/// earlier calls hands out server `k mod n` with `rotate`, and the first
/// server on every call without. (`k` stays within the cursor's range.)
pub proof fn lemma_kth_call_picks_server(pools: Seq<ProxyPool>, k: int)
    requires
        pools.len() == k + 1,
        0 <= k <= usize::MAX,
        pools[0].cursor() == 0,
        pools[0].is_available(),
        forall|j: int| 0 <= j < k ==> #[trigger] pools[j].stepped(&pools[j + 1]),
    ensures
        pools[k].servers() == pools[0].servers(),
        pools[0].rotates() ==> pools[k].pick() == Some(pools[0].servers()[k % (pools[0].servers().len() as int)]),
        !pools[0].rotates() ==> pools[k].pick() == Some(pools[0].servers()[0]),
{
    assert forall|j: int| 0 <= j < pools.len() - 1 implies #[trigger] pools[j].stepped(&pools[j + 1]) by {}
    lemma_steps_from_fresh(pools, k);
}

} // verus!
