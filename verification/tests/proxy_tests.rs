use ticket_bot2::config::{ProxyConfig, SessionConfig};
use ticket_bot2::proxy::{fill_session_id, ProxyPool};

#[test]
fn round_robin_proxy_pool() {
    let mut pool = ProxyPool::new(ProxyConfig {
        enabled: true,
        rotate: true,
        servers: vec!["http://a:80".into(), "http://b:80".into()],
    });

    assert_eq!(pool.next().as_deref(), Some("http://a:80"));
    assert_eq!(pool.next().as_deref(), Some("http://b:80"));
    assert_eq!(pool.next().as_deref(), Some("http://a:80"));
}

#[test]
fn session_override_wins() {
    let mut pool = ProxyPool::new(ProxyConfig {
        enabled: true,
        rotate: true,
        servers: vec!["http://a:80".into()],
    });

    let session = SessionConfig { proxy_server: "http://fixed:8080".into(), ..SessionConfig::default() };

    assert_eq!(pool.resolve_for_session(&session).as_deref(), Some("http://fixed:8080"));
}

#[test]
fn rotation_visits_every_server_once_per_cycle() {
    let servers: Vec<String> = vec!["http://a:80".into(), "http://b:80".into(), "http://c:80".into()];
    let mut pool = ProxyPool::new(ProxyConfig { enabled: true, rotate: true, servers: servers.clone() });
    let mut seen: Vec<String> = (0..3).map(|_| pool.next().unwrap()).collect();
    seen.sort();
    assert_eq!(seen, servers);
}

#[test]
fn fixed_pool_always_returns_first_server() {
    let mut pool = ProxyPool::new(ProxyConfig {
        enabled: true,
        rotate: false,
        servers: vec!["http://a:80".into(), "http://b:80".into()],
    });
    for _ in 0..3 {
        assert_eq!(pool.next().as_deref(), Some("http://a:80"));
    }
}

#[test]
fn disabled_or_empty_pool_gives_nothing() {
    let mut disabled = ProxyPool::new(ProxyConfig { enabled: false, rotate: true, servers: vec!["http://a:80".into()] });
    assert!(!disabled.available());
    assert_eq!(disabled.next(), None);
    let mut empty = ProxyPool::new(ProxyConfig { enabled: true, rotate: true, servers: vec![] });
    assert!(!empty.available());
    assert_eq!(empty.next(), None);
}

#[test]
fn blank_session_proxy_falls_back_to_pool() {
    let mut pool = ProxyPool::new(ProxyConfig { enabled: true, rotate: true, servers: vec!["http://a:80".into()] });
    let session = SessionConfig { proxy_server: "   ".into(), ..SessionConfig::default() };
    assert_eq!(pool.resolve_for_session(&session).as_deref(), Some("http://a:80"));
}

#[test]
fn session_id_placeholder_is_filled_with_eight_hex_digits() {
    let mut pool = ProxyPool::new(ProxyConfig {
        enabled: true,
        rotate: true,
        servers: vec!["http://user-{session_id}:pw@host:80/{session_id}".into()],
    });
    let proxy = pool.next().unwrap();
    assert!(!proxy.contains("{session_id}"));
    let id = &proxy["http://user-".len().."http://user-".len() + 8];
    assert!(id.chars().all(|c| c.is_ascii_hexdigit() && !c.is_ascii_uppercase()));
    assert_eq!(proxy, format!("http://user-{id}:pw@host:80/{id}"));
}

#[test]
fn fill_session_id_uses_first_eight_characters() {
    assert_eq!(fill_session_id("x-{session_id}-y", "0123456789abcdef"), "x-01234567-y");
    assert_eq!(fill_session_id("no placeholder", "0123456789abcdef"), "no placeholder");
}

#[test]
fn kth_call_gets_server_k_mod_n() {
    let servers: Vec<String> = vec!["http://a:80".into(), "http://b:80".into(), "http://c:80".into()];
    let mut pool = ProxyPool::new(ProxyConfig { enabled: true, rotate: true, servers: servers.clone() });
    let blank = SessionConfig::default();
    for k in 0..10 {
        let got = if k % 2 == 0 { pool.next() } else { pool.resolve_for_session(&blank) };
        assert_eq!(got.as_deref(), Some(servers[k % 3].as_str()));
    }
}
