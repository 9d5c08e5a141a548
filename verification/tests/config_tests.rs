use ticket_bot2::config::{
    absolutize_relative_path, deployment_preset, finish_config, normalize_deployment_profile, parse_env_bool,
    parse_env_list, prepare_sections, AppConfig, BrowserConfig, CaptchaConfig, DiscordConfig, EnvOverrides,
    EventConfig, ParsedSections, ProxyConfig, SessionConfig, TelegramConfig, TraceConfig,
};
use ticket_bot2::yaml::{deep_merge, set_field, yaml_string, YamlKey, YamlNode};

fn text(s: &str) -> YamlNode {
    YamlNode::Text(s.to_string())
}

fn map(entries: Vec<(&str, YamlNode)>) -> YamlNode {
    YamlNode::Mapping(entries.into_iter().map(|(k, v)| (YamlKey::Text(k.to_string()), v)).collect())
}

fn get<'a>(node: &'a YamlNode, key: &str) -> Option<&'a YamlNode> {
    match node {
        YamlNode::Mapping(entries) => entries.iter().find(|(k, _)| matches!(k, YamlKey::Text(t) if t == key)).map(|(_, v)| v),
        _ => None,
    }
}

fn flag(node: &YamlNode, key: &str) -> Option<bool> {
    match get(node, key) {
        Some(YamlNode::Flag(b)) => Some(*b),
        _ => None,
    }
}

fn no_env() -> EnvOverrides {
    EnvOverrides {
        deployment_profile: None,
        node_id: None,
        browser_engine: None,
        browser_headless: None,
        browser_executable_path: None,
        browser_api_mode: None,
        captcha_collect_dir: None,
        captcha_collect_enabled: None,
        telegram_bot_token: None,
        telegram_chat_id: None,
        discord_webhook_url: None,
        proxy_enabled: None,
        proxy_rotate: None,
        proxy_servers: None,
        trace_headers: None,
        trace_log_path: None,
        ticketmaster_api_key: None,
    }
}

#[test]
fn profiles_are_normalized() {
    assert_eq!(normalize_deployment_profile(" Local "), "local_desktop");
    assert_eq!(normalize_deployment_profile("cloud"), "gcp_taiwan");
    assert_eq!(normalize_deployment_profile("GCP-Taiwan"), "gcp_taiwan");
    assert_eq!(normalize_deployment_profile("tokyo"), "aws_tokyo");
    assert_eq!(normalize_deployment_profile("My-Box"), "my_box");
    assert_eq!(normalize_deployment_profile(""), "");
}

#[test]
fn env_values_are_read() {
    for yes in ["1", "true", " YES ", "On"] {
        assert!(parse_env_bool(yes));
    }
    for no in ["0", "false", "", "y"] {
        assert!(!parse_env_bool(no));
    }
    assert_eq!(parse_env_list("http://a:80, http://b:80\n,\nhttp://c:80 "), vec!["http://a:80", "http://b:80", "http://c:80"]);
    assert!(parse_env_list(" , ").is_empty());
}

#[test]
fn relative_paths_resolve_against_the_config_directory() {
    assert_eq!(absolutize_relative_path("/srv/bot", "./chrome_profile"), "/srv/bot/chrome_profile");
    assert_eq!(absolutize_relative_path("/srv/bot", " model//captcha.onnx "), "/srv/bot/model/captcha.onnx");
    assert_eq!(absolutize_relative_path("/srv/bot", "/abs/path"), "/abs/path");
    assert_eq!(absolutize_relative_path("/srv/bot", "   "), "");
    assert_eq!(absolutize_relative_path("/srv/bot/", "../x/./y/"), "/srv/bot/../x/y");
    assert_eq!(absolutize_relative_path("", "./a"), "./a");
    assert_eq!(absolutize_relative_path("", "."), ".");
}

#[test]
fn presets_exist_for_known_profiles_only() {
    assert_eq!(deployment_preset("local_desktop").len(), 5);
    assert_eq!(deployment_preset("aws_tokyo").len(), 5);
    assert!(deployment_preset("other").is_empty());
}

#[test]
fn deep_merge_keeps_base_keys_and_lets_overrides_win() {
    let base = map(vec![("engine", text("nodriver")), ("api_mode", text("full")), ("nested", map(vec![("a", text("1")), ("b", text("2"))]))]);
    let over = map(vec![("api_mode", text("checkout")), ("nested", map(vec![("b", text("3"))]))]);
    let merged = deep_merge(Some(base), Some(over));
    assert_eq!(yaml_string(&merged, "engine").as_deref(), Some("nodriver"));
    assert_eq!(yaml_string(&merged, "api_mode").as_deref(), Some("checkout"));
    let nested = get(&merged, "nested").unwrap();
    assert_eq!(yaml_string(nested, "a").as_deref(), Some("1"));
    assert_eq!(yaml_string(nested, "b").as_deref(), Some("3"));
    assert!(matches!(deep_merge(None, None), YamlNode::Mapping(ref e) if e.is_empty()));
    assert!(matches!(deep_merge(Some(text("x")), None), YamlNode::Text(ref s) if s == "x"));
    let set = set_field(text("scalar"), "k", text("v"));
    assert_eq!(yaml_string(&set, "k").as_deref(), Some("v"));
}

fn example_root() -> YamlNode {
    map(vec![
        ("deployment", map(vec![("profile", text("local"))])),
        ("events", YamlNode::Encoded("- name: IVE\n".to_string())),
        ("browser", map(vec![("api_mode", text("checkout"))])),
        ("notifications", map(vec![("telegram", map(vec![("chat_id", text("yaml-chat"))]))])),
        ("proxy", map(vec![("enabled", YamlNode::Flag(false))])),
    ])
}

#[test]
fn load_config_applies_presets_and_env_overrides() {
    let env = EnvOverrides {
        browser_engine: Some("playwright".to_string()),
        browser_headless: Some("true".to_string()),
        telegram_bot_token: Some("test-token".to_string()),
        discord_webhook_url: Some("https://discord.test/webhook".to_string()),
        proxy_enabled: Some("true".to_string()),
        proxy_servers: Some("http://a:80,http://b:80".to_string()),
        trace_headers: Some("true".to_string()),
        ticketmaster_api_key: Some("test-ticketmaster".to_string()),
        ..no_env()
    };
    let s = prepare_sections(&example_root(), &env);
    assert_eq!(s.profile, "local_desktop");
    assert_eq!(yaml_string(&s.browser, "engine").as_deref(), Some("playwright"));
    assert_eq!(flag(&s.browser, "headless"), Some(true));
    assert_eq!(yaml_string(&s.browser, "api_mode").as_deref(), Some("checkout"));
    assert_eq!(yaml_string(&s.captcha, "custom_model_path").as_deref(), Some("model/captcha_model.onnx"));
    assert_eq!(flag(&s.telegram, "enabled"), Some(true));
    assert_eq!(yaml_string(&s.telegram, "chat_id").as_deref(), Some("yaml-chat"));
    assert_eq!(flag(&s.discord, "enabled"), Some(true));
    assert_eq!(flag(&s.proxy, "enabled"), Some(true));
    assert!(matches!(get(&s.proxy, "servers"), Some(YamlNode::Texts(v)) if v == &vec!["http://a:80".to_string(), "http://b:80".to_string()]));
    assert_eq!(flag(&s.trace, "enabled"), Some(true));
    assert!(matches!(s.events, YamlNode::Encoded(ref t) if t == "- name: IVE\n"));
    assert!(matches!(s.sessions, YamlNode::Encoded(ref t) if t == "[]"));

    let parsed = ParsedSections {
        events: vec![EventConfig { name: "IVE".to_string(), ..EventConfig::default() }],
        browser: BrowserConfig { engine: "playwright".to_string(), headless: true, api_mode: "checkout".to_string(), ..BrowserConfig::default() },
        captcha: CaptchaConfig { custom_model_path: "model/captcha_model.onnx".to_string(), ..CaptchaConfig::default() },
        telegram: TelegramConfig { enabled: true, bot_token: String::new(), chat_id: "yaml-chat".to_string() },
        discord: DiscordConfig { enabled: true, webhook_url: String::new() },
        proxy: ProxyConfig { enabled: true, rotate: true, servers: vec!["http://a:80".to_string(), "http://b:80".to_string()] },
        trace: TraceConfig { enabled: true, ..TraceConfig::default() },
        sessions: vec![],
    };
    let config: AppConfig = finish_config(parsed, &env, s.profile.clone(), "/srv/bot".to_string());
    assert_eq!(config.deployment.profile, "local_desktop");
    assert_eq!(config.captcha.custom_model_path, "/srv/bot/model/captcha_model.onnx");
    assert_eq!(config.notifications.telegram.bot_token, "test-token");
    assert_eq!(config.notifications.telegram.chat_id, "yaml-chat");
    assert_eq!(config.notifications.discord.webhook_url, "https://discord.test/webhook");
    assert_eq!(config.ticketmaster_api_key, "test-ticketmaster");
    assert_eq!(config.sessions.len(), 1);
    assert_eq!(config.sessions[0].user_data_dir, config.browser.user_data_dir);
    assert_eq!(config.browser.user_data_dir, "/srv/bot/chrome_profile");
    assert_eq!(config.trace.log_path, "/srv/bot/logs/tixcraft_trace.jsonl");
    assert_eq!(config.base_dir, "/srv/bot");
}

#[test]
fn load_config_respects_node_id_and_collect_dir_fallback() {
    let root = map(vec![("deployment", map(vec![("profile", text("aws"))]))]);
    let env = EnvOverrides {
        node_id: Some("7".to_string()),
        captcha_collect_enabled: Some("true".to_string()),
        ..no_env()
    };
    let s = prepare_sections(&root, &env);
    assert_eq!(s.profile, "aws_tokyo");
    assert_eq!(yaml_string(&s.browser, "user_data_dir").as_deref(), Some("./chrome_profile_node_7"));
    assert_eq!(yaml_string(&s.captcha, "collect_dir").as_deref(), Some("./captcha_samples"));
    assert_eq!(flag(&s.telegram, "enabled"), Some(false));
    assert_eq!(absolutize_relative_path("/srv", "./chrome_profile_node_7"), "/srv/chrome_profile_node_7");

    let parsed = ParsedSections {
        events: vec![EventConfig { name: "EXO".to_string(), ..EventConfig::default() }],
        browser: BrowserConfig { user_data_dir: "./chrome_profile_node_7".to_string(), ..BrowserConfig::default() },
        captcha: CaptchaConfig { collect_dir: "./captcha_samples".to_string(), ..CaptchaConfig::default() },
        telegram: TelegramConfig { enabled: false, bot_token: String::new(), chat_id: String::new() },
        discord: DiscordConfig { enabled: false, webhook_url: String::new() },
        proxy: ProxyConfig::default(),
        trace: TraceConfig::default(),
        sessions: vec![],
    };
    let config: AppConfig = finish_config(parsed, &env, s.profile.clone(), "/srv".to_string());
    assert_eq!(config.deployment.profile, "aws_tokyo");
    assert_eq!(config.browser.user_data_dir, "/srv/chrome_profile_node_7");
    assert_eq!(config.sessions.len(), 1);
    assert_eq!(config.sessions[0].user_data_dir, "/srv/chrome_profile_node_7");
    assert_eq!(config.captcha.collect_dir, "/srv/captcha_samples");
    assert!(!config.notifications.telegram.enabled);
}

#[test]
fn env_profile_wins_over_file_profile() {
    let root = map(vec![("deployment", map(vec![("profile", text("aws"))]))]);
    let env = EnvOverrides { deployment_profile: Some("gcp".to_string()), ..no_env() };
    assert_eq!(prepare_sections(&root, &env).profile, "gcp_taiwan");
    let s = prepare_sections(&text("not a mapping"), &no_env());
    assert_eq!(s.profile, "");
    assert!(matches!(s.browser, YamlNode::Mapping(ref e) if e.is_empty()));
}

#[test]
fn configured_sessions_get_resolved_paths() {
    let parsed = ParsedSections {
        events: vec![],
        browser: BrowserConfig::default(),
        captcha: CaptchaConfig::default(),
        telegram: TelegramConfig::default(),
        discord: DiscordConfig::default(),
        proxy: ProxyConfig::default(),
        trace: TraceConfig::default(),
        sessions: vec![SessionConfig { name: "a".to_string(), user_data_dir: "p1".to_string(), proxy_server: "x".to_string(), cookie_file: "c.json".to_string() }],
    };
    let env = EnvOverrides { telegram_chat_id: Some("env-chat".to_string()), ..no_env() };
    let config = finish_config(parsed, &env, String::new(), "/b".to_string());
    assert_eq!(config.sessions.len(), 1);
    assert_eq!(config.sessions[0].user_data_dir, "/b/p1");
    assert_eq!(config.sessions[0].cookie_file, "/b/c.json");
    assert_eq!(config.sessions[0].proxy_server, "x");
    assert_eq!(config.notifications.telegram.chat_id, "env-chat");
}

#[test]
fn select_event_and_session() {
    let config = AppConfig {
        events: vec![
            EventConfig { name: "IVE".to_string(), url: "https://tixcraft.com/activity/game/26_ive".to_string(), ..EventConfig::default() },
            EventConfig { name: "EXO".to_string(), url: "https://tixcraft.com/activity/game/26_exo".to_string(), ..EventConfig::default() },
        ],
        sessions: vec![
            SessionConfig { name: "default".to_string(), ..SessionConfig::default() },
            SessionConfig { name: "alt".to_string(), ..SessionConfig::default() },
        ],
        ..AppConfig::default()
    };
    assert_eq!(config.select_event(Some(" exo ")).unwrap().name, "EXO");
    assert_eq!(config.select_event(Some("26_ive")).unwrap().name, "IVE");
    assert!(config.select_event(Some("bts")).is_none());
    assert_eq!(config.select_event(None).unwrap().name, "IVE");
    assert_eq!(config.select_session(Some("alt")).unwrap().name, "alt");
    assert!(config.select_session(Some("ALT")).is_none());
    assert_eq!(config.select_session(Some(" ")).unwrap().name, "default");
}

fn nested_example() -> YamlNode {
    map(vec![
        ("engine", text("nodriver")),
        ("headless", YamlNode::Flag(true)),
        ("inner", map(vec![("a", text("1")), ("b", text("2"))])),
        ("servers", YamlNode::Texts(vec!["x".to_string()])),
    ])
}

#[test]
fn merging_a_value_onto_itself_gives_it_back() {
    let merged = deep_merge(Some(nested_example()), Some(nested_example()));
    let YamlNode::Mapping(entries) = &merged else { panic!("expected a mapping") };
    assert_eq!(entries.len(), 4);
    assert_eq!(yaml_string(&merged, "engine").as_deref(), Some("nodriver"));
    assert_eq!(flag(&merged, "headless"), Some(true));
    let inner = get(&merged, "inner").unwrap();
    assert_eq!(yaml_string(inner, "a").as_deref(), Some("1"));
    assert_eq!(yaml_string(inner, "b").as_deref(), Some("2"));
    assert!(matches!(get(&merged, "servers"), Some(YamlNode::Texts(v)) if v == &vec!["x".to_string()]));
    assert!(matches!(deep_merge(Some(text("t")), Some(text("t"))), YamlNode::Text(ref s) if s == "t"));
}
