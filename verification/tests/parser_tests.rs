use ticket_bot2::keywords::{matches_keyword, split_keywords};
use ticket_bot2::parser::{
    detect_coming_soon, detect_login_required, order_form_readable, parse_area_list, parse_game_list,
    parse_order_form, parse_ticket_form, parse_verify_page, verify_page_readable,
};

#[test]
fn test_matches_keyword() {
    assert!(matches_keyword("2026/09/11 (五) 19:00", "2026/09/11"));
    assert!(matches_keyword("2026/09/11 (五) 19:00", "2026/09/11|2026/09/12"));
    assert!(matches_keyword("2026/09/11 (五) 19:00", "2026/09/10, 2026/09/11"));
    assert!(!matches_keyword("2026/09/13 (日) 19:00", "2026/09/11|2026/09/12"));
    assert!(!matches_keyword("anything", ""));
}

#[test]
fn test_split_keywords_supports_multiple_delimiters() {
    assert_eq!(
        split_keywords("2026/09/11|2026/09/12,2026/09/13；2026/09/14\n2026/09/15"),
        vec!["2026/09/11", "2026/09/12", "2026/09/13", "2026/09/14", "2026/09/15"]
    );
}

#[test]
fn test_parse_game_list_keeps_verify_targets() {
    let html = r#"
            <tr>
              <td>2026/09/11 (五) 19:00</td>
              <td><button data-href="/activity/verify/26_ive/12345">立即購票</button></td>
            </tr>
        "#;

    let rows = parse_game_list(html);
    assert_eq!(rows.len(), 1);
    assert_eq!(rows[0].0, "2026/09/11 (五) 19:00 立即購票");
    assert_eq!(rows[0].1, "https://tixcraft.com/activity/verify/26_ive/12345");
}

#[test]
fn test_parse_verify_page_extracts_answer_and_csrf() {
    let html = r#"
            <form id="form-ticket-verify" action="/activity/check-code/26_ive/12345">
              <input type="hidden" name="_csrf" value="csrf-token">
              <div class="zone-verify">請輸入【ABCD】後繼續</div>
            </form>
        "#;

    assert!(verify_page_readable(html));
    let info = parse_verify_page(html);
    assert_eq!(info.answer.as_deref(), Some("ABCD"));
    assert_eq!(info.csrf.as_deref(), Some("csrf-token"));
    assert_eq!(info.form_action.as_deref(), Some("/activity/check-code/26_ive/12345"));
}

#[test]
fn test_parse_area_list_reads_area_url_map() {
    let html = r#"
            <script>
              var areaUrlList = {'A1': '/ticket/ticket/26_ive/111'};
            </script>
            <div class="zone">
              <a id="A1">搖滾A區</a>
              <a class="disabled">已售完區</a>
            </div>
        "#;

    let info = parse_area_list(html);
    assert_eq!(info.total, 1);
    assert_eq!(info.available.len(), 1);
    assert_eq!(info.available[0].url, "https://tixcraft.com/ticket/ticket/26_ive/111");
    assert_eq!(info.available[0].text, "搖滾A區");
}

#[test]
fn test_parse_area_list_skips_unrelated_links() {
    let html = r#"
            <a href="/news/detail/1101">請慎防詐騙，切勿相信來路不明的客服通知</a>
            <script>
              var areaUrlList = {'A1': '/ticket/ticket/26_ive/111'};
            </script>
            <div class="zone">
              <a id="A1">紫2A區</a>
            </div>
        "#;

    let info = parse_area_list(html);
    assert_eq!(info.total, 1);
    assert_eq!(info.available.len(), 1);
    assert_eq!(info.available[0].text, "紫2A區");
    assert_eq!(info.available[0].url, "https://tixcraft.com/ticket/ticket/26_ive/111");
}

#[test]
fn test_parse_ticket_form_extracts_fields_and_options() {
    let html = r#"
            <form>
              <input type="hidden" name="_csrf" value="token">
              <select name="TicketForm[ticketPrice][01]" class="mobile-select">
                <option value="0">0</option>
                <option value="2">2</option>
              </select>
            </form>
        "#;

    let info = parse_ticket_form(html);
    assert_eq!(info.fields.get("_csrf").map(String::as_str), Some("token"));
    assert_eq!(info.select_name.as_deref(), Some("TicketForm[ticketPrice][01]"));
    assert_eq!(info.select_options, vec![0, 2]);
    assert_eq!(info.fields.get("TicketForm[agree]").map(String::as_str), Some("1"));
}

#[test]
fn test_parse_ticket_form_handles_reordered_hidden_attributes() {
    let html = r#"
            <form>
              <input value="token" name="_csrf" type="hidden">
            </form>
        "#;

    let info = parse_ticket_form(html);
    assert_eq!(info.fields.get("_csrf").map(String::as_str), Some("token"));
}

#[test]
fn test_parse_order_form_selects_payment_and_shipment() {
    let html = r#"
            <input type="hidden" name="_csrf" value="csrf">
            <label><input type="radio" name="CheckoutForm[paymentId]" value="11"> 信用卡 </label>
            <label><input type="radio" name="CheckoutForm[paymentId]" value="12"> ATM 轉帳 </label>
            <label><input type="radio" name="CheckoutForm[shipmentId]" value="21"> 郵寄 </label>
            <label><input type="radio" name="CheckoutForm[shipmentId]" value="22"> ibon 取票 </label>
            <input type="checkbox" name="CheckoutForm[agree]">
        "#;

    assert!(order_form_readable(html));
    let form = parse_order_form(html).expect("form should parse");
    assert_eq!(form.fields.get("CheckoutForm[paymentId]").map(String::as_str), Some("12"));
    assert_eq!(form.fields.get("CheckoutForm[shipmentId]").map(String::as_str), Some("22"));
    assert_eq!(form.fields.get("CheckoutForm[agree]").map(String::as_str), Some("1"));
}

/// The order page of the fixture set, written out here.
const ORDER_PAGE: &str = r#"
<!DOCTYPE html>
<html>
  <body>
    <form id="form-checkout" method="post" action="/ticket/checkout">
      <input type="hidden" name="_csrf" value="csrf-order-token">
      <div class="payment">
        <label><input type="radio" name="CheckoutForm[paymentId]" value="11"> 信用卡 </label>
        <label><input type="radio" name="CheckoutForm[paymentId]" value="12"> ATM 虛擬帳號 </label>
      </div>
      <div class="shipment">
        <label><input type="radio" name="CheckoutForm[shipmentId]" value="21"> 宅配 </label>
        <label><input type="radio" name="CheckoutForm[shipmentId]" value="22"> ibon 取票 </label>
      </div>
      <input type="checkbox" name="CheckoutForm[agree]">
    </form>
  </body>
</html>
"#;

#[test]
fn test_parse_order_form_from_fixture() {
    assert!(order_form_readable(ORDER_PAGE));
    let form = parse_order_form(ORDER_PAGE).expect("form should parse");
    assert_eq!(form.fields.get("_csrf").map(String::as_str), Some("csrf-order-token"));
    assert_eq!(form.fields.get("CheckoutForm[paymentId]").map(String::as_str), Some("12"));
    assert_eq!(form.fields.get("CheckoutForm[shipmentId]").map(String::as_str), Some("22"));
    assert_eq!(form.fields.get("CheckoutForm[agree]").map(String::as_str), Some("1"));
}

#[test]
fn test_parse_order_form_handles_any_radio_attribute_order() {
    let html = r#"
            <input value="csrf" name="_csrf" type="hidden">
            <label><input name="CheckoutForm[paymentId]" type="radio" value="11"> 信用卡 </label>
            <label><input value="22" type="radio" name="CheckoutForm[shipmentId]"> ibon 取票 </label>
            <input name="CheckoutForm[agree]" type="checkbox">
        "#;

    let form = parse_order_form(html).expect("form should parse");
    assert_eq!(form.fields.get("CheckoutForm[paymentId]").map(String::as_str), Some("11"));
    assert_eq!(form.fields.get("CheckoutForm[shipmentId]").map(String::as_str), Some("22"));
    assert_eq!(form.fields.get("CheckoutForm[agree]").map(String::as_str), Some("1"));
}

#[test]
fn test_parse_order_form_rejects_unparseable_radio_checkout() {
    let html = r#"
            <input type="hidden" name="_csrf" value="csrf">
            <div>Checkout</div>
            <input type="radio" checked>
        "#;

    assert!(parse_order_form(html).is_none());
}

#[test]
fn coming_soon_pages_are_detected_in_any_case() {
    assert!(detect_coming_soon("<h1>Coming Soon</h1>"));
    assert!(detect_coming_soon("<p>即將開賣</p>"));
    assert!(!detect_coming_soon("<p>立即購票</p>"));
}

#[test]
fn login_pages_are_detected_by_url_or_form() {
    assert!(detect_login_required("", "https://tixcraft.com/login"));
    assert!(detect_login_required("<form action=\"/login\">登入</form>", "https://tixcraft.com/x"));
    assert!(!detect_login_required("<div>ok</div>", "https://tixcraft.com/ticket/area/1"));
}

/// The game page of the fixture set, written out here.
const GAME_PAGE: &str = r#"
<table id="gameList">
  <tr><th>場次</th><th>狀態</th></tr>
  <tr>
    <td>2026/09/11 (五) 19:30</td>
    <td><button class="btn" data-href="/activity/verify/26_demo/1001">立即購票</button></td>
  </tr>
  <tr>
    <td>2026/09/12 (六) 19:30</td>
    <td><button class="btn" data-href="https://tixcraft.com/ticket/area/26_demo/1002">立即購票</button></td>
  </tr>
</table>
"#;

/// The verify page of the fixture set, written out here.
const VERIFY_PAGE: &str = r#"
<form id="form-ticket-verify" action="/activity/check-code/26_demo/1001" method="post">
  <input type="hidden" name="_csrf" value="csrf-demo-token">
  <div class="zone-verify">請輸入「ABCD」完成驗證</div>
</form>
"#;

/// The area page of the fixture set, written out here.
const AREA_PAGE: &str = r#"
<script>
  var areaUrlList = {"A1":"/ticket/ticket/26_demo/2001","B1":"/ticket/ticket/26_demo/2002"};
</script>
<div class="zone area-list">
  <a id="A1">紫2A區</a>
  <a id="B1" class="disabled">已售完 紫2B區</a>
</div>
"#;

/// The ticket page of the fixture set, written out here.
const TICKET_PAGE: &str = r#"
<form id="TicketForm" action="/ticket/ticket/26_demo/2001" method="post">
  <input type="hidden" name="_csrf" value="csrf-ticket-token">
  <input type="hidden" name="TicketForm[eventId]" value="evt-001">
  <select name="TicketForm[ticketPrice][01]" class="mobile-select" id="TicketForm_ticketPrice_01">
    <option value="0">0</option>
    <option value="1">1</option>
    <option value="2">2</option>
  </select>
  <input type="checkbox" name="TicketForm[agree]" id="TicketForm_agree">
</form>
"#;

#[test]
fn test_parse_verify_page_from_fixture() {
    assert!(verify_page_readable(VERIFY_PAGE));
    let info = parse_verify_page(VERIFY_PAGE);
    assert_eq!(info.answer.as_deref(), Some("ABCD"));
    assert_eq!(info.csrf.as_deref(), Some("csrf-demo-token"));
    assert_eq!(info.form_action.as_deref(), Some("/activity/check-code/26_demo/1001"));
}

#[test]
fn test_parse_game_list_from_fixture() {
    let rows = parse_game_list(GAME_PAGE);
    assert_eq!(rows.len(), 2);
    assert_eq!(rows[0].0, "2026/09/11 (五) 19:30 立即購票");
    assert_eq!(rows[0].1, "https://tixcraft.com/activity/verify/26_demo/1001");
    assert_eq!(rows[1].1, "https://tixcraft.com/ticket/area/26_demo/1002");
}

#[test]
fn test_parse_area_list_from_fixture() {
    let info = parse_area_list(AREA_PAGE);
    assert_eq!(info.total, 2);
    assert_eq!(info.available.len(), 1);
    assert_eq!(info.sold_out, vec!["已售完 紫2B區"]);
    assert_eq!(info.available[0].text, "紫2A區");
    assert_eq!(info.available[0].url, "https://tixcraft.com/ticket/ticket/26_demo/2001");
}

#[test]
fn test_parse_ticket_form_from_fixture() {
    let info = parse_ticket_form(TICKET_PAGE);
    assert_eq!(info.fields.get("_csrf").map(String::as_str), Some("csrf-ticket-token"));
    assert_eq!(info.fields.get("TicketForm[eventId]").map(String::as_str), Some("evt-001"));
    assert_eq!(info.select_name.as_deref(), Some("TicketForm[ticketPrice][01]"));
    assert_eq!(info.select_options, vec![0, 1, 2]);
}

#[test]
fn joined_keywords_split_back() {
    let ks = split_keywords(" 2026/09/11 |,VIP ；  搖滾區\n");
    assert_eq!(ks, vec!["2026/09/11", "VIP", "搖滾區"]);
    assert_eq!(split_keywords(&ks.join("|")), ks);
    assert_eq!(split_keywords(&ks.join("，")), ks);
}

#[test]
fn added_alternatives_keep_a_match() {
    let text = "2026/09/11 (五) 19:00";
    assert!(matches_keyword(text, "09/11"));
    assert!(matches_keyword(text, "09/11|nothing"));
    assert!(matches_keyword(text, "nothing|09/11"));
    assert!(!matches_keyword(text, "|nothing"));
}

#[test]
fn area_total_counts_both_lists() {
    let html = r#"
        <a id="A1" href="/ticket/ticket/26_ive/111">VIP 區  3888</a>
        <a href="/ticket/ticket/26_ive/112" class="Disabled">A 區 已售完</a>
        <a href="/ticket/ticket/26_ive/113">B 區 2888</a>
        <a href="/activity/detail/26_ive">Detail</a>
    "#;
    let info = parse_area_list(html);
    assert_eq!(info.total, info.available.len() + info.sold_out.len());
    assert_eq!(info.total, 3);
    assert_eq!(info.available.len(), 2);
    assert_eq!(info.available[0].url, "https://tixcraft.com/ticket/ticket/26_ive/111");
    assert_eq!(info.available[0].text, "VIP 區 3888");
    assert_eq!(info.sold_out, vec!["A 區 已售完"]);
}
