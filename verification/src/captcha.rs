//! The captcha: fetching the image, the command line of the solver helper,
//! and reading the helper's answer.

use vstd::prelude::*;
use crate::config::CaptchaConfig;
use crate::http::ApiBinaryResponse;
use crate::parser::{normalized_url, opt_view};
use crate::text::{append_chars, chars_of, concat3, contains, contains_exec, decimal, decimal_chars, is_blank, starts_with, starts_with_exec, string_of, sub_chars, trim, trim_exec};

verus! {

// ---------------------------------------------------------------------------
// The helper's command line.
/// The arguments of the solver helper: the script and the image, then the
/// options the captcha settings ask for.
pub open spec fn helper_arguments(config: CaptchaConfig, script: Seq<char>, image: Seq<char>) -> Seq<Seq<char>> {
    let base = seq![script, "--image"@, image];
    let with_beta = if config.beta_model { base.push("--beta"@) } else { base };
    let with_model = if trim(config.custom_model_path@).len() > 0 {
        with_beta.push("--custom-model"@).push(config.custom_model_path@)
    } else {
        with_beta
    };
    let with_charset = if trim(config.custom_charset_path@).len() > 0 {
        with_model.push("--custom-charset"@).push(config.custom_charset_path@)
    } else {
        with_model
    };
    if config.char_ranges > 0 {
        with_charset.push("--char-ranges"@).push(decimal(config.char_ranges as nat))
    } else {
        with_charset
    }
}

pub fn helper_args(config: &CaptchaConfig, helper_script: &str, image_path: &str) -> (r: Vec<String>)
    ensures
        crate::text::string_views(r@) == helper_arguments(*config, helper_script@, image_path@),
{
    let mut args: Vec<String> = Vec::new();
    args.push(helper_script.to_owned());
    args.push("--image".to_owned());
    args.push(image_path.to_owned());
    let ghost base = seq![helper_script@, "--image"@, image_path@];
    assert(crate::text::string_views(args@) =~= base);
    if config.beta_model {
        args.push("--beta".to_owned());
    }
    let ghost with_beta = if config.beta_model { base.push("--beta"@) } else { base };
    assert(crate::text::string_views(args@) =~= with_beta);
    if !is_blank(&chars_of(config.custom_model_path.as_str())) {
        args.push("--custom-model".to_owned());
        args.push(config.custom_model_path.clone());
    }
    let ghost with_model = if trim(config.custom_model_path@).len() > 0 {
        with_beta.push("--custom-model"@).push(config.custom_model_path@)
    } else {
        with_beta
    };
    assert(crate::text::string_views(args@) =~= with_model);
    if !is_blank(&chars_of(config.custom_charset_path.as_str())) {
        args.push("--custom-charset".to_owned());
        args.push(config.custom_charset_path.clone());
    }
    let ghost with_charset = if trim(config.custom_charset_path@).len() > 0 {
        with_model.push("--custom-charset"@).push(config.custom_charset_path@)
    } else {
        with_model
    };
    assert(crate::text::string_views(args@) =~= with_charset);
    if config.char_ranges > 0 {
        args.push("--char-ranges".to_owned());
        args.push(string_of(&decimal_chars(config.char_ranges as u128)));
    }
    assert(crate::text::string_views(args@) =~= helper_arguments(*config, helper_script@, image_path@));
    args
}

/// The error of a helper that exited unsuccessfully.
pub fn helper_failure_message(stderr: &str) -> (r: String)
    ensures
        r@ == "captcha helper failed: "@ + trim(stderr@),
{
    let t = trim_exec(&chars_of(stderr));
    let r = concat3("captcha helper failed: ", &t, "");
    proof {
        reveal_strlit("");
        assert("captcha helper failed: "@ + t@ + ""@ =~= "captcha helper failed: "@ + t@);
    }
    r
}

// ---------------------------------------------------------------------------
// The helper's answer.
/// The text split at each newline (the last piece may be empty).
pub open spec fn newline_pieces(s: Seq<char>) -> Seq<Seq<char>>
    decreases s.len(),
{
    if s.len() == 0 {
        seq![seq![]]
    } else {
        let w = newline_pieces(s.drop_last());
        if s.last() == '\n' {
            w.push(seq![])
        } else {
            w.update(w.len() - 1, w.last().push(s.last()))
        }
    }
}

proof fn lemma_newline_pieces_nonempty(s: Seq<char>)
    ensures
        newline_pieces(s).len() > 0,
    decreases s.len(),
{
    if s.len() > 0 {
        lemma_newline_pieces_nonempty(s.drop_last());
    }
}

/// The answer of the last `text=` line, trimmed; empty without one. (A `\r`
/// before a newline is whitespace, which the trim removes.)
pub open spec fn answer_of_lines(lines: Seq<Seq<char>>) -> Seq<char>
    decreases lines.len(),
{
    if lines.len() == 0 {
        seq![]
    } else if starts_with(lines.last(), "text="@) {
        trim(lines.last().subrange(5, lines.last().len() as int))
    } else {
        answer_of_lines(lines.drop_last())
    }
}

pub open spec fn helper_answer(stdout: Seq<char>) -> Seq<char> {
    answer_of_lines(newline_pieces(stdout))
}

fn line_answer(line: &Vec<char>, prefix: &Vec<char>) -> (r: Option<Vec<char>>)
    requires
        prefix@ == "text="@,
    ensures
        starts_with(line@, "text="@) ==> (r matches Some(a) && a@ == trim(line@.subrange(5, line@.len() as int))),
        !starts_with(line@, "text="@) ==> r is None,
{
    proof {
        reveal_strlit("text=");
    }
    if starts_with_exec(line, prefix) {
        let rest = sub_chars(line, 5, line.len());
        Some(trim_exec(&rest))
    } else {
        None
    }
}

/// The captcha text the helper printed.
pub fn captcha_text_from_output(stdout: &str) -> (r: String)
    ensures
        r@ == helper_answer(stdout@),
{
    let s = chars_of(stdout);
    let prefix = chars_of("text=");
    let mut best: Vec<char> = Vec::new();
    let mut cur: Vec<char> = Vec::new();
    let mut i: usize = 0;
    proof {
        lemma_newline_pieces_nonempty(s@.take(0));
        assert(s@.take(0) =~= Seq::<char>::empty());
    }
    while i < s.len()
        invariant
            i <= s@.len(),
            prefix@ == "text="@,
            newline_pieces(s@.take(i as int)).len() > 0,
            cur@ == newline_pieces(s@.take(i as int)).last(),
            best@ == answer_of_lines(newline_pieces(s@.take(i as int)).drop_last()),
        decreases s@.len() - i,
    {
        let c = s[i];
        let ghost w = newline_pieces(s@.take(i as int));
        assert(s@.take(i + 1).drop_last() =~= s@.take(i as int));
        assert(s@.take(i + 1).last() == c);
        if c == '\n' {
            match line_answer(&cur, &prefix) {
                Some(a) => {
                    best = a;
                },
                None => {},
            }
            cur = Vec::new();
            proof {
                assert(newline_pieces(s@.take(i + 1)) == w.push(seq![]));
                assert(w.push(seq![]).drop_last() =~= w);
            }
        } else {
            cur.push(c);
            proof {
                assert(newline_pieces(s@.take(i + 1)) == w.update(w.len() - 1, w.last().push(c)));
                assert(w.update(w.len() - 1, w.last().push(c)).drop_last() =~= w.drop_last());
            }
        }
        i = i + 1;
    }
    assert(s@.take(s@.len() as int) =~= s@);
    match line_answer(&cur, &prefix) {
        Some(a) => string_of(&a),
        None => string_of(&best),
    }
}

// ---------------------------------------------------------------------------
// Fetching the image.
#[verifier::external_type_specification]
#[verifier::external_body]
pub struct ExJsonError(serde_json::Error);

/// For bytes holding JSON: `Some` of its string member `key` (itself `None`
/// when the value is not an object, lacks the member, or the member is not
/// a string); `None` when the bytes are not JSON. A function of its
/// arguments.
pub uninterp spec fn json_bytes_member(bytes: Seq<u8>, key: Seq<char>) -> Option<Option<Seq<char>>>;

/// Calls `serde_json::from_slice::<serde_json::Value>` and reads the string
/// member `key`; fails exactly where `json_bytes_member` is `None`.
#[verifier::external_body]
fn json_member_of_bytes(bytes: &[u8], key: &str) -> (r: Result<Option<String>, serde_json::Error>)
    ensures
        match r {
            Ok(m) => json_bytes_member(bytes@, key@) == Some(opt_view(m)),
            Err(_) => json_bytes_member(bytes@, key@) is None,
        },
{
    let value = serde_json::from_slice::<serde_json::Value>(bytes)?;
    match value.get(key) {
        Some(serde_json::Value::String(s)) => Ok(Some(s.clone())),
        _ => Ok(None),
    }
}

/// Why the captcha endpoint gave no image.
#[derive(Debug, Clone, Copy, PartialEq, Eq)]
pub enum CaptchaError {
    /// A status other than 200.
    Status(u16),
    /// A JSON answer that does not parse.
    BadJson,
}

/// What the captcha endpoint answered.
#[derive(Debug)]
pub enum CaptchaFetch {
    /// The image itself.
    Image(Vec<u8>),
    /// A JSON answer naming the image URL to fetch (its body is the image).
    FetchUrl(String),
    /// A JSON answer without an image URL: no image.
    NoImage,
}

/// What to do with the answer of the captcha endpoint.
pub fn captcha_response(resp: ApiBinaryResponse) -> (r: Result<CaptchaFetch, CaptchaError>)
    ensures
        resp.status != 200 ==> r == Err::<CaptchaFetch, CaptchaError>(CaptchaError::Status(resp.status)),
        resp.status == 200 ==> {
            let json = match resp.content_type {
                Some(c) => contains(c@, "json"@),
                None => false,
            };
            if !json {
                r matches Ok(CaptchaFetch::Image(b)) && b@ == resp.body@
            } else {
                match json_bytes_member(resp.body@, "url"@) {
                    None => r == Err::<CaptchaFetch, CaptchaError>(CaptchaError::BadJson),
                    Some(None) => r matches Ok(CaptchaFetch::NoImage),
                    Some(Some(u)) => r matches Ok(CaptchaFetch::FetchUrl(v)) && v@ == normalized_url(u),
                }
            }
        },
{
    if resp.status != 200 {
        return Err(CaptchaError::Status(resp.status));
    }
    let json = match &resp.content_type {
        Some(c) => contains_exec(&chars_of(c.as_str()), &chars_of("json")),
        None => false,
    };
    if !json {
        return Ok(CaptchaFetch::Image(resp.body));
    }
    match json_member_of_bytes(resp.body.as_slice(), "url") {
        Err(_) => Err(CaptchaError::BadJson),
        Ok(None) => Ok(CaptchaFetch::NoImage),
        Ok(Some(u)) => Ok(CaptchaFetch::FetchUrl(crate::tixcraft::normalize_url(u.as_str()))),
    }
}

/// The error text of a failed captcha fetch.
pub fn captcha_error_message(e: CaptchaError) -> (r: Option<String>)
    ensures
        e matches CaptchaError::Status(s) ==> (r matches Some(m) && m@ == "captcha endpoint returned "@ + decimal(s as nat)),
        e is BadJson ==> r is None,
{
    match e {
        CaptchaError::Status(s) => {
            let digits = decimal_chars(s as u128);
            let m = concat3("captcha endpoint returned ", &digits, "");
            proof {
                reveal_strlit("");
                assert("captcha endpoint returned "@ + digits@ + ""@ =~= "captcha endpoint returned "@ + digits@);
            }
            Some(m)
        },
        CaptchaError::BadJson => None,
    }
}

} // verus!
