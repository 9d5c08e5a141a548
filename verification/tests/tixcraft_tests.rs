use ticket_bot2::bot::resolve_cookie_file;
use ticket_bot2::config::{AppConfig, EventConfig, SessionConfig};
use ticket_bot2::parser::AreaEntry;
use ticket_bot2::tixcraft::{
    classify_ticket_page_failure, extract_error_message, filter_selectable_areas, game_url, is_blocked_error_message,
    is_checkout_url, is_fail_url, is_success_order_url, is_verify_url, normalize_url, select_area, select_game_rows,
    select_ticket_count, should_skip_area, verify_check_url,
};

#[test]
fn resolve_cookie_file_skips_global_file_for_named_multi_session() {
    let config = AppConfig {
        sessions: vec![
            SessionConfig { name: "default".to_string(), ..SessionConfig::default() },
            SessionConfig { name: "alt".to_string(), ..SessionConfig::default() },
        ],
        ..AppConfig::default()
    };

    let resolved = resolve_cookie_file(&config, &config.sessions[1]);
    assert_eq!(resolved, None);
}

#[test]
fn resolve_cookie_file_prefers_session_file_then_shared_file() {
    let config = AppConfig { base_dir: "/srv/bot".to_string(), ..AppConfig::default() };
    let own = SessionConfig { cookie_file: "/tmp/c.json".to_string(), ..SessionConfig::default() };
    assert_eq!(resolve_cookie_file(&config, &own).as_deref(), Some("/tmp/c.json"));
    let plain = SessionConfig::default();
    assert_eq!(resolve_cookie_file(&config, &plain).as_deref(), Some("/srv/bot/tixcraft_cookies.json"));
    let trailing = AppConfig { base_dir: "/srv/bot/".to_string(), ..AppConfig::default() };
    assert_eq!(resolve_cookie_file(&trailing, &plain).as_deref(), Some("/srv/bot/tixcraft_cookies.json"));
}

#[test]
fn verify_check_url_maps_verify_endpoints() {
    assert_eq!(
        verify_check_url("https://tixcraft.com/activity/verify/26_ive/123"),
        "https://tixcraft.com/activity/check-code/26_ive/123"
    );
    assert_eq!(
        verify_check_url("https://tixcraft.com/ticket/verify/26_ive/123"),
        "https://tixcraft.com/ticket/check-code/26_ive/123"
    );
    assert_eq!(verify_check_url("https://tixcraft.com/other"), "https://tixcraft.com/other");
}

#[test]
fn select_ticket_count_falls_back_to_highest_positive_option() {
    assert_eq!(select_ticket_count(&vec![0, 1, 3], 2), Some(3));
}

#[test]
fn select_ticket_count_cases() {
    assert_eq!(select_ticket_count(&vec![], 2), Some(2));
    assert_eq!(select_ticket_count(&vec![0, 2, 4], 2), Some(2));
    assert_eq!(select_ticket_count(&vec![0, 0], 2), None);
}

#[test]
fn fail_url_matches_game_and_root_pages() {
    assert!(is_fail_url("https://tixcraft.com/activity/game/26_ive"));
    assert!(is_fail_url("https://tixcraft.com"));
    assert!(!is_fail_url("https://tixcraft.com/ticket/order/abc"));
}

#[test]
fn url_classes() {
    assert!(is_fail_url("https://tixcraft.com///"));
    assert!(is_verify_url("https://tixcraft.com/ticket/verify/1"));
    assert!(!is_verify_url("https://tixcraft.com/ticket/area/1"));
    assert!(is_checkout_url("https://tixcraft.com/ticket/checkout"));
    assert!(is_checkout_url("https://tixcraft.com/ticket/order"));
    assert!(is_success_order_url("https://tixcraft.com/order/123"));
    assert!(!is_success_order_url("https://tixcraft.com/ticket/order"));
    assert_eq!(normalize_url("/ticket/area/1"), "https://tixcraft.com/ticket/area/1");
    assert_eq!(normalize_url("ticket/area/1"), "https://tixcraft.com/ticket/area/1");
    assert_eq!(normalize_url("http://x/y"), "http://x/y");
    for u in ["/ticket/area/1", "ticket/area/1", "https://tixcraft.com/x", ""] {
        assert_eq!(normalize_url(&normalize_url(u)), normalize_url(u));
    }
}

#[test]
fn select_game_rows_matches_multi_keyword_dates() {
    let rows = vec![
        ("2026/09/11 (Fri) 19:30".to_string(), "/ticket/area/11".to_string()),
        ("2026/09/12 (Sat) 19:30".to_string(), "/ticket/area/12".to_string()),
        ("2026/09/13 (Sun) 19:30".to_string(), "/ticket/area/13".to_string()),
    ];

    let selected = select_game_rows(&rows, "2026/09/11|2026/09/13");
    assert_eq!(selected.len(), 2);
    assert_eq!(selected[0].0, "2026/09/11 (Fri) 19:30");
    assert_eq!(selected[1].0, "2026/09/13 (Sun) 19:30");
}

#[test]
fn select_game_rows_falls_back_to_first_when_keyword_misses() {
    let rows = vec![
        ("2026/09/11".to_string(), "/ticket/area/11".to_string()),
        ("2026/09/12".to_string(), "/ticket/area/12".to_string()),
    ];

    let selected = select_game_rows(&rows, "2026/10/01");
    assert_eq!(selected, vec![rows[0].clone()]);
}

#[test]
fn select_game_rows_edge_cases() {
    let rows: Vec<(String, String)> = vec![];
    assert!(select_game_rows(&rows, "x").is_empty());
    let rows = vec![("a".to_string(), "/1".to_string()), ("b".to_string(), "/2".to_string())];
    assert_eq!(select_game_rows(&rows, "  "), vec![rows[0].clone()]);
}

fn area(url: &str, text: &str) -> AreaEntry {
    AreaEntry { url: url.to_string(), text: text.to_string() }
}

#[test]
fn wheelchair_and_standing_areas_are_skipped() {
    assert!(should_skip_area("身障席"));
    assert!(should_skip_area("Wheelchair zone"));
    assert!(should_skip_area("搖滾站區A"));
    assert!(!should_skip_area("紫2A區"));
    let kept = filter_selectable_areas(vec![area("/1", "輪椅區"), area("/2", "紅A區"), area("/3", "殘障席"), area("/4", "黃B區")]);
    let texts: Vec<&str> = kept.iter().map(|a| a.text.as_str()).collect();
    assert_eq!(texts, vec!["紅A區", "黃B區"]);
}

#[test]
fn select_area_prefers_keyword_then_first() {
    let areas = vec![area("/1", "紅A區"), area("/2", "黃B區"), area("/3", "黃C區")];
    assert_eq!(select_area("黃", &areas).url, "/2");
    assert_eq!(select_area("綠|C區", &areas).url, "/3");
    assert_eq!(select_area("綠", &areas).url, "/1");
    assert_eq!(select_area("", &areas).url, "/1");
}

#[test]
fn ticket_page_failures_are_classified() {
    assert_eq!(classify_ticket_page_failure("<p>SOLD OUT</p>", "u"), "此區已售完");
    assert_eq!(classify_ticket_page_failure("", "https://tixcraft.com/login"), "cookie 過期，需要重新登入");
    assert_eq!(classify_ticket_page_failure("Browsing Activity Paused", "u"), "IP 被封鎖 (Browsing Activity Paused)");
    assert_eq!(classify_ticket_page_failure("<div id=challenge-platform>", "u"), "Cloudflare challenge");
    assert_eq!(classify_ticket_page_failure("x", "https://tixcraft.com/ticket/area/1"), "被踢回選區頁（非票頁）");
    assert_eq!(classify_ticket_page_failure("頁面", "u"), "未知票頁錯誤（HTML 6 bytes）");
}

#[test]
fn error_messages_are_extracted_and_flattened() {
    let html = "<div class=\"alert alert-danger\">x</div><span class='error'>驗證碼\n<b>錯誤</b>  請重試</span>";
    assert_eq!(extract_error_message(html).as_deref(), Some("驗證碼 錯誤 請重試"));
    let upper = "<DIV CLASS=\"Help-Block\">Too   many</DIV>";
    assert_eq!(extract_error_message(upper).as_deref(), Some("Too many"));
    assert_eq!(extract_error_message("<div class=\"warning\"> <br> </div>"), None);
    assert_eq!(extract_error_message("<div class=\"info\">x</div>"), None);
}

#[test]
fn blocked_messages_name_their_status() {
    assert!(is_blocked_error_message("game 頁收到 403 (可能被 Cloudflare 擋)"));
    assert!(is_blocked_error_message("收到 401"));
    assert!(!is_blocked_error_message("收到 500"));
}

#[test]
fn detail_pages_map_to_game_pages() {
    let detail = EventConfig { url: "https://tixcraft.com/activity/detail/26_ive/".to_string(), ..EventConfig::default() };
    assert_eq!(game_url(&detail), "https://tixcraft.com/activity/game/26_ive");
    let game = EventConfig { url: "https://tixcraft.com/activity/game/26_ive".to_string(), ..EventConfig::default() };
    assert_eq!(game_url(&game), "https://tixcraft.com/activity/game/26_ive");
}
