use ticket_bot2::captcha::{captcha_error_message, captcha_response, captcha_text_from_output, helper_args, helper_failure_message, CaptchaError, CaptchaFetch};
use ticket_bot2::config::CaptchaConfig;
use ticket_bot2::cookies::{default_cookie_path, filter_cookies, CookieEntry};
use ticket_bot2::http::{
    cookie_header, cookie_host_of, cookie_seed_url, normalize_cookie_path, resolve_redirect_url, should_follow_redirect,
    should_include_cookie_domain, ApiBinaryResponse, ChaseStep, RedirectChase,
};
use ticket_bot2::text::decimal_string;

fn cookie(name: &str, domain: &str, path: &str) -> CookieEntry {
    CookieEntry { name: name.to_string(), value: "v".to_string(), domain: domain.to_string(), path: path.to_string() }
}

#[test]
fn tixcraft_and_host_only_cookies_are_kept() {
    let kept = filter_cookies(vec![
        cookie("keep_domain", ".tixcraft.com", "/ticket"),
        cookie("keep_host_only", "", "/"),
        cookie("drop", ".example.com", "/"),
        cookie("keep_upper", " .TIXCRAFT.com ", "/"),
    ]);
    let names: Vec<&str> = kept.iter().map(|c| c.name.as_str()).collect();
    assert_eq!(names, vec!["keep_domain", "keep_host_only", "keep_upper"]);
    assert_eq!(default_cookie_path(), "/");
}

#[test]
fn cookie_texts() {
    let c = cookie("sid", " .tixcraft.com ", " ");
    assert_eq!(normalize_cookie_path(" "), "/");
    assert_eq!(cookie_host_of(" ..tixcraft.com"), "tixcraft.com");
    assert_eq!(cookie_seed_url(&c), "https://tixcraft.com/");
    assert_eq!(cookie_seed_url(&cookie("a", "", "/x")), "https://tixcraft.com/x");
    assert_eq!(cookie_header(&c, false), "sid=v; Path=/; Domain=.tixcraft.com");
    assert_eq!(cookie_header(&c, true), "sid=v; Path=/");
    assert!(!should_include_cookie_domain("localhost", false));
    assert!(!should_include_cookie_domain(" ", false));
    assert!(should_include_cookie_domain(".a.com", false));
}

#[test]
fn redirects_are_followed_up_to_the_limit() {
    assert!(should_follow_redirect(302) && should_follow_redirect(308));
    assert!(!should_follow_redirect(304) && !should_follow_redirect(200));
    assert_eq!(resolve_redirect_url("https://tixcraft.com/a/b", "/final").unwrap(), "https://tixcraft.com/final");
    assert_eq!(resolve_redirect_url("https://tixcraft.com/a/b", "c").unwrap(), "https://tixcraft.com/a/c");
    assert!(resolve_redirect_url("not a url", "/x").is_err());

    let mut chase = RedirectChase::new(true);
    let loc = Some("/next".to_string());
    match chase.on_response(302, &loc, "https://tixcraft.com/start") {
        ChaseStep::Follow { url, referer } => {
            assert_eq!(url, "https://tixcraft.com/next");
            assert_eq!(referer, "https://tixcraft.com/start");
        },
        other => panic!("unexpected {:?}", other),
    }
    assert!(matches!(chase.on_response(200, &loc, "u"), ChaseStep::Done));
    for _ in 0..9 {
        assert!(matches!(chase.on_response(301, &loc, "https://tixcraft.com/x"), ChaseStep::Follow { .. }));
    }
    assert!(matches!(chase.on_response(301, &loc, "https://tixcraft.com/x"), ChaseStep::TooManyRedirects));
    let mut plain = RedirectChase::new(false);
    assert!(matches!(plain.on_response(302, &loc, "u"), ChaseStep::Done));
}

#[test]
fn helper_command_line_follows_the_settings() {
    let config = CaptchaConfig {
        beta_model: true,
        custom_model_path: "/m.onnx".to_string(),
        custom_charset_path: " ".to_string(),
        char_ranges: 12,
        ..CaptchaConfig::default()
    };
    assert_eq!(
        helper_args(&config, "solve.py", "/tmp/c.png"),
        vec!["solve.py", "--image", "/tmp/c.png", "--beta", "--custom-model", "/m.onnx", "--char-ranges", "12"]
    );
    let plain = CaptchaConfig { beta_model: false, char_ranges: 0, ..CaptchaConfig::default() };
    assert_eq!(helper_args(&plain, "s", "i"), vec!["s", "--image", "i"]);
    assert_eq!(helper_failure_message("  boom \n"), "captcha helper failed: boom");
}

#[test]
fn helper_answer_is_the_last_text_line() {
    assert_eq!(captcha_text_from_output("text=ab12\r\nconfidence=0.9\n"), "ab12");
    assert_eq!(captcha_text_from_output("text=aaaa\ntext= bbbb \n"), "bbbb");
    assert_eq!(captcha_text_from_output("confidence=0.1"), "");
    assert_eq!(captcha_text_from_output("text=zz"), "zz");
}

#[test]
fn captcha_endpoint_answers() {
    let image = ApiBinaryResponse { status: 200, content_type: Some("image/png".to_string()), body: vec![1, 2, 3] };
    assert!(matches!(captcha_response(image), Ok(CaptchaFetch::Image(b)) if b == vec![1, 2, 3]));
    let json = ApiBinaryResponse { status: 200, content_type: Some("application/json".to_string()), body: br#"{"url":"/captcha/1.png"}"#.to_vec() };
    assert!(matches!(captcha_response(json), Ok(CaptchaFetch::FetchUrl(u)) if u == "https://tixcraft.com/captcha/1.png"));
    let empty = ApiBinaryResponse { status: 200, content_type: Some("application/json".to_string()), body: b"{}".to_vec() };
    assert!(matches!(captcha_response(empty), Ok(CaptchaFetch::NoImage)));
    let bad = ApiBinaryResponse { status: 200, content_type: Some("application/json".to_string()), body: b"{".to_vec() };
    assert!(matches!(captcha_response(bad), Err(CaptchaError::BadJson)));
    let denied = ApiBinaryResponse { status: 403, content_type: None, body: vec![] };
    assert!(matches!(captcha_response(denied), Err(CaptchaError::Status(403))));
    assert_eq!(captcha_error_message(CaptchaError::Status(403)).as_deref(), Some("captcha endpoint returned 403"));
}

#[test]
fn decimal_notation() {
    assert_eq!(decimal_string(0), "0");
    assert_eq!(decimal_string(1234567890), "1234567890");
}

fn cookie_from_json(value: &serde_json::Value) -> CookieEntry {
    let field = |key: &str| value.get(key).and_then(|v| v.as_str()).unwrap_or_default().to_string();
    CookieEntry { name: field("name"), value: field("value"), domain: field("domain"), path: field("path") }
}

#[test]
fn load_cookies_keeps_tixcraft_and_host_only_entries() {
    let raw = r#"
[
  {"name":"keep_domain","value":"1","domain":".tixcraft.com","path":"/ticket"},
  {"name":"keep_host_only","value":"2","domain":"","path":"/"},
  {"name":"drop","value":"3","domain":".example.com","path":"/"}
]
"#;
    let parsed: Vec<serde_json::Value> = serde_json::from_str(raw).unwrap();
    let cookies = filter_cookies(parsed.iter().map(cookie_from_json).collect());

    assert_eq!(
        cookies,
        vec![
            CookieEntry {
                name: "keep_domain".to_string(),
                value: "1".to_string(),
                domain: ".tixcraft.com".to_string(),
                path: "/ticket".to_string(),
            },
            CookieEntry {
                name: "keep_host_only".to_string(),
                value: "2".to_string(),
                domain: String::new(),
                path: "/".to_string(),
            },
        ]
    );
}
