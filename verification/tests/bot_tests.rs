use ticket_bot2::bot::{
    build_form_payload, empty_as_dash, finish_verified_target, game_page_rows, probe_result, start_watch_target,
    verify_landing_page, verify_page_error, verify_result, verify_submission, OrderAction, OrderFlow, TargetStart,
    TicketPost, TixcraftApiBot, WatchAction, WatchRound, WatchStats, WatchTarget,
};
use ticket_bot2::config::{AppConfig, EventConfig, ProxyConfig, SessionConfig};
use ticket_bot2::fields::FormFields;
use ticket_bot2::http::ApiTextResponse;
use ticket_bot2::parser::VerifyInfo;

fn response(status: u16, location: Option<&str>, body: &str, final_url: &str) -> ApiTextResponse {
    ApiTextResponse {
        status,
        final_url: final_url.to_string(),
        location: location.map(str::to_string),
        content_type: Some("text/html".to_string()),
        body: body.to_string(),
    }
}

fn bot_for(event: EventConfig) -> TixcraftApiBot {
    let config = AppConfig::default();
    TixcraftApiBot::new(&config, event, SessionConfig::default(), vec![])
}

fn target(href: &str) -> WatchTarget {
    WatchTarget { keyword: "2026/09/11".to_string(), text: "2026/09/11".to_string(), href: href.to_string(), visits: 0 }
}

#[test]
fn watch_stats_count_blocked_and_ok() {
    let mut stats = WatchStats::new();
    stats.record(200);
    stats.record(403);
    stats.record(401);
    stats.record(302);
    assert_eq!((stats.ok, stats.blocked, stats.total), (2, 2, 4));
    assert!(!stats.report_due());
    for _ in 0..46 {
        stats.record(200);
    }
    assert!(stats.report_due());
}

#[test]
fn blocked_watch_response_asks_for_a_new_client() {
    let mut bot = bot_for(EventConfig::default());
    let mut round = WatchRound::new(vec![target("https://tixcraft.com/ticket/area/1")]);
    round.begin();
    let action = bot.on_watch_response(&mut round, &response(403, None, "", "u"));
    assert!(matches!(action, WatchAction::Blocked { report: true }));
    assert_eq!(bot.last_error(), "watch 收到 403，重建 HTTP client");
    assert_eq!(bot.stats().blocked, 1);
}

#[test]
fn watch_redirects_move_the_target_or_stop() {
    let mut bot = bot_for(EventConfig::default());
    let mut round = WatchRound::new(vec![target("https://tixcraft.com/ticket/area/1")]);
    round.begin();
    let action = bot.on_watch_response(&mut round, &response(302, Some("/ticket/area/2"), "", "u"));
    assert!(matches!(action, WatchAction::Relocated));
    assert_eq!(round.targets()[0].href, "https://tixcraft.com/ticket/area/2");
    let action = bot.on_watch_response(&mut round, &response(302, Some("/activity/game/x"), "", "u"));
    assert!(matches!(action, WatchAction::Stray));
    assert_eq!(bot.last_error(), "watch 被導向非 area 頁面: https://tixcraft.com/activity/game/x");
    let action = bot.on_watch_response(&mut round, &response(302, Some("/login"), "", "u"));
    assert!(matches!(action, WatchAction::Abort));
    assert_eq!(bot.last_error(), "watch 被導向登入頁，cookie 可能已過期");
}

#[test]
fn watch_buys_the_keyword_area() {
    let event = EventConfig { area_keyword: "B區".to_string(), ..EventConfig::default() };
    let mut bot = bot_for(event);
    let mut round = WatchRound::new(vec![target("https://tixcraft.com/ticket/area/1")]);
    round.begin();
    let html = r#"
        <script>var areaUrlList = {'A1': '/ticket/ticket/26/1', 'B1': '/ticket/ticket/26/2'};</script>
        <a id="A1">紅A區</a><a id="B1">紅B區</a>
    "#;
    match bot.on_watch_response(&mut round, &response(200, None, html, "https://tixcraft.com/ticket/area/1")) {
        WatchAction::Buy { area } => {
            assert_eq!(area.text, "紅B區");
            assert_eq!(area.url, "https://tixcraft.com/ticket/ticket/26/2");
        },
        other => panic!("unexpected {:?}", other),
    }
    let action = bot.on_watch_response(&mut round, &response(200, None, "<p>none</p>", "https://tixcraft.com/ticket/area/1"));
    assert!(matches!(action, WatchAction::Waiting { report: true }));
}

#[test]
fn watch_turns_go_round_the_targets() {
    let mut round = WatchRound::new(vec![target("/a"), target("/b"), target("/c")]);
    let mut hrefs = vec![];
    for _ in 0..4 {
        hrefs.push(round.begin().href);
        round.advance();
    }
    assert_eq!(hrefs, vec!["/a", "/b", "/c", "/a"]);
    assert_eq!(round.round(), 4);
    assert_eq!(round.targets()[0].visits, 2);
}

#[test]
fn game_page_rows_report_why_nothing_can_be_watched() {
    assert_eq!(game_page_rows(&response(403, None, "", "u"), "").unwrap_err(), "game 頁收到 403 (可能被 Cloudflare 擋)");
    assert_eq!(game_page_rows(&response(200, None, "<p>即將開賣</p>", "u"), "").unwrap_err(), "game 頁顯示即將開賣，尚未產生可監測場次");
    assert_eq!(game_page_rows(&response(200, None, "<p>x</p>", "u"), "").unwrap_err(), "game 頁找不到場次列表");
    let html = r#"<tr><td>2026/09/11</td><td><button data-href="/ticket/area/26/1">立即購票</button></td></tr>"#;
    let rows = game_page_rows(&response(200, None, html, "u"), "").unwrap();
    assert_eq!(rows, vec![("2026/09/11 立即購票".to_string(), "https://tixcraft.com/ticket/area/26/1".to_string())]);
}

#[test]
fn targets_behind_verify_pages_need_an_answer() {
    match start_watch_target("row".to_string(), "/activity/verify/26/1") {
        TargetStart::NeedsVerify(url) => assert_eq!(url, "https://tixcraft.com/activity/verify/26/1"),
        other => panic!("unexpected {:?}", other),
    }
    match start_watch_target("row".to_string(), "/ticket/area/26/1") {
        TargetStart::Ready(t) => {
            assert_eq!(t.href, "https://tixcraft.com/ticket/area/26/1");
            assert_eq!(t.visits, 0);
        },
        other => panic!("unexpected {:?}", other),
    }
    assert_eq!(finish_verified_target("row".to_string(), None).unwrap_err(), "verify 頁無法換到 area URL: row");
    assert_eq!(finish_verified_target("row".to_string(), Some("/x".to_string())).unwrap().href, "/x");
}

#[test]
fn verify_submission_uses_page_answer_or_presale_code() {
    let info = VerifyInfo { answer: Some("ABCD".to_string()), csrf: Some("tok".to_string()), form_action: None };
    let sub = verify_submission(&info, "", "https://tixcraft.com/activity/verify/26/1").unwrap();
    assert_eq!(sub.check_url, "https://tixcraft.com/activity/check-code/26/1");
    assert_eq!(sub.form, vec![("_csrf".to_string(), "tok".to_string()), ("checkCode".to_string(), "ABCD".to_string())]);
    let none = VerifyInfo { answer: None, csrf: None, form_action: Some("/custom".to_string()) };
    let sub = verify_submission(&none, "CODE", "https://tixcraft.com/ticket/verify/1").unwrap();
    assert_eq!(sub.check_url, "https://tixcraft.com/custom");
    assert_eq!(sub.form[0].1, "");
    assert_eq!(sub.form[1].1, "CODE");
    assert!(verify_submission(&none, "  ", "u").is_none());
    assert_eq!(verify_page_error(401).as_deref(), Some("verify 頁收到 401 (可能被 Cloudflare 擋)"));
    assert_eq!(verify_page_error(200), None);
}

#[test]
fn verify_landing_prefers_redirect_then_json_then_final_url() {
    let resp = response(200, None, r#"{"url": "/ticket/area/26/1"}"#, "https://tixcraft.com/activity/verify/26/1");
    assert_eq!(verify_result(&resp).as_deref(), Some("https://tixcraft.com/ticket/area/26/1"));
    let resp = response(302, Some("/ticket/area/26/2"), "not json", "https://tixcraft.com/activity/verify/26/1");
    assert_eq!(verify_result(&resp).as_deref(), Some("https://tixcraft.com/ticket/area/26/2"));
    let resp = response(200, None, "not json", "https://tixcraft.com/activity/verify/26/1");
    assert_eq!(verify_result(&resp), None);
    assert_eq!(
        verify_landing_page(&None, None, "https://tixcraft.com/ticket/area/3").as_deref(),
        Some("https://tixcraft.com/ticket/area/3")
    );
}

#[test]
fn ticket_fields_take_the_offered_count_and_captcha() {
    let event = EventConfig { ticket_count: 2, ..EventConfig::default() };
    let mut bot = bot_for(event);
    let html = r#"
        <input type="hidden" name="_csrf" value="tok">
        <select name="TicketForm[ticketPrice][01]" class="mobile-select">
          <option value="0">0</option><option value="1">1</option><option value="3">3</option>
        </select>
    "#;
    let fields = bot.ticket_fields("https://tixcraft.com/ticket/ticket/1", &response(200, None, html, "u")).unwrap().unwrap();
    assert_eq!(fields.get("TicketForm[ticketPrice][01]").map(String::as_str), Some("3"));
    assert!(bot.with_captcha(FormFields::new(), "abc").is_none());
    assert_eq!(bot.last_error(), "驗證碼辨識失敗");
    let with = bot.with_captcha(fields, "abcd").unwrap();
    let payload = build_form_payload(&with);
    let names: Vec<&str> = payload.iter().map(|p| p.0.as_str()).collect();
    assert_eq!(names, vec!["TicketForm[agree]", "TicketForm[ticketPrice][01]", "TicketForm[verifyCode]", "_csrf"]);
}

#[test]
fn ticket_page_without_csrf_is_classified() {
    let mut bot = bot_for(EventConfig::default());
    assert!(bot.ticket_fields("t", &response(200, None, "已售完", "u")).unwrap().is_none());
    assert_eq!(bot.last_error(), "此區已售完");
    assert!(bot.ticket_fields("t", &response(200, None, "", "https://tixcraft.com/login")).unwrap().is_none());
    assert_eq!(bot.last_error(), "票頁需要重新登入");
    let html = r#"<input type="hidden" name="_csrf" value="tok"><select name="n"><option value="0">0</option></select>"#;
    assert_eq!(bot.ticket_fields("t", &response(200, None, html, "u")).unwrap_err(), "票頁沒有可用票數選項: t");
}

#[test]
fn ticket_post_outcomes() {
    let mut bot = bot_for(EventConfig { ticket_count: 0, ..EventConfig::default() });
    let t = "https://tixcraft.com/ticket/ticket/1";
    assert!(matches!(bot.on_ticket_post(t, "row", &response(302, Some("/ticket/area/1"), "", t)), TicketPost::Done(false)));
    assert_eq!(bot.last_error(), "送單後被踢回: https://tixcraft.com/ticket/area/1");
    match bot.on_ticket_post(t, "row", &response(302, Some("/ticket/checkout"), "", t)) {
        TicketPost::Checkout(u) => assert_eq!(u, "https://tixcraft.com/ticket/checkout"),
        other => panic!("unexpected {:?}", other),
    }
    assert!(matches!(bot.on_ticket_post(t, "row", &response(200, None, "", "https://tixcraft.com/order/9")), TicketPost::Done(true)));
    assert_eq!(bot.last_success_info(), "場次: row\n區域 URL: https://tixcraft.com/ticket/ticket/1\n張數: 1");
    assert!(matches!(bot.on_ticket_post(t, "row", &response(200, None, "<p>oops</p>", t)), TicketPost::Done(false)));
    assert_eq!(bot.last_error(), "送單失敗：HTTP 200（非 redirect）");
    bot.on_checkout_finished(t, "row", true);
    assert_eq!(bot.last_success_info(), "場次: row\n票頁: https://tixcraft.com/ticket/ticket/1\n張數: 1");
}

#[test]
fn order_flow_polls_then_submits() {
    let mut bot = bot_for(EventConfig::default());
    let (mut flow, first) = OrderFlow::start("/ticket/order");
    assert!(matches!(first, OrderAction::Get { ref url, .. } if url == "https://tixcraft.com/ticket/order"));
    let wait = bot.on_order_poll(&mut flow, &response(200, None, "<p>Sit tight</p>", "u"));
    assert!(matches!(wait, OrderAction::Wait));
    assert!(matches!(bot.after_order_wait(&flow), OrderAction::Get { .. }));
    let html = r#"<input type="hidden" name="_csrf" value="c"><div>結帳</div><input type="checkbox" name="agree">"#;
    match bot.on_order_poll(&mut flow, &response(200, None, html, "u")) {
        OrderAction::Post { url, payload } => {
            assert_eq!(url, "https://tixcraft.com/ticket/order");
            assert_eq!(payload, vec![("_csrf".to_string(), "c".to_string()), ("agree".to_string(), "1".to_string())]);
        },
        other => panic!("unexpected {:?}", other),
    }
    let done = bot.on_order_post(&mut flow, &response(302, Some("/order/123"), "", "u"));
    assert!(matches!(done, OrderAction::Finish { ok: true }));
}

#[test]
fn order_flow_stops_after_five_checkout_pages() {
    let mut bot = bot_for(EventConfig::default());
    let (mut flow, _) = OrderFlow::start("/ticket/checkout");
    let mut last = OrderAction::Wait;
    for _ in 0..5 {
        last = bot.on_order_poll(&mut flow, &response(302, Some("/ticket/checkout"), "", "u"));
        if matches!(last, OrderAction::Finish { .. }) {
            break;
        }
    }
    assert!(matches!(last, OrderAction::Finish { ok: false }));
    assert_eq!(bot.last_error(), "結帳超過最大步驟數");
}

#[test]
fn order_flow_reports_kickbacks_and_post_errors() {
    let mut bot = bot_for(EventConfig::default());
    let (mut flow, _) = OrderFlow::start("/ticket/order");
    let kicked = bot.on_order_poll(&mut flow, &response(302, Some("/activity/game/x"), "", "u"));
    assert!(matches!(kicked, OrderAction::Finish { ok: false }));
    assert_eq!(bot.last_error(), "Sit tight 被踢回: https://tixcraft.com/activity/game/x");
    let (mut flow, _) = OrderFlow::start("/ticket/order");
    let failed = bot.on_order_post(&mut flow, &response(500, None, "<p>x</p>", "u"));
    assert!(matches!(failed, OrderAction::Finish { ok: false }));
    assert_eq!(bot.last_error(), "結帳 POST 失敗：HTTP 500");
}

#[test]
fn plan_and_probe_report_the_session() {
    let config = AppConfig {
        base_dir: "/srv".to_string(),
        proxy: ProxyConfig { enabled: true, rotate: true, servers: vec!["http://p:1".to_string()] },
        ..AppConfig::default()
    };
    let event = EventConfig { name: "IVE".to_string(), url: "https://tixcraft.com/activity/game/26_ive".to_string(), ..EventConfig::default() };
    let bot = TixcraftApiBot::new(&config, event, SessionConfig::default(), vec![]);
    let plan = bot.plan();
    assert_eq!(plan.event_name, "IVE");
    assert_eq!(plan.cookie_file, "/srv/tixcraft_cookies.json");
    assert_eq!(plan.proxy.as_deref(), Some("http://p:1"));
    assert!(plan.user_agent.contains("Chrome/133.0.0.0"));
    let probe = probe_result(&response(200, None, "頁", "https://tixcraft.com/x"));
    assert_eq!(probe.body_len, 3);
    assert_eq!(probe.content_type, "text/html");
    assert_eq!(empty_as_dash("  "), "-");
    assert_eq!(empty_as_dash("x"), "x");
}

#[test]
fn rebuilding_the_client_moves_to_the_next_proxy() {
    let config = AppConfig {
        proxy: ProxyConfig { enabled: true, rotate: true, servers: vec!["http://a:1".to_string(), "http://b:1".to_string()] },
        ..AppConfig::default()
    };
    let mut bot = TixcraftApiBot::new(&config, EventConfig::default(), SessionConfig::default(), vec![]);
    assert_eq!(bot.proxy().as_deref(), Some("http://a:1"));
    assert_eq!(bot.rebuild_proxy().as_deref(), Some("http://b:1"));
    assert_eq!(bot.proxy().as_deref(), Some("http://b:1"));
}
