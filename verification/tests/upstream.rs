//! The upstream: requests, replies, frames and runs.

use qwen2api_rs::account::Account;
use qwen2api_rs::events::{QwenDelta, UpstreamEvent};
use qwen2api_rs::execution::request::StreamParams;
use qwen2api_rs::json::Json;
use qwen2api_rs::pool::account_pool::{AccountPool, PoolSettings};
use qwen2api_rs::pool::handle::AccountHandle;
use qwen2api_rs::upstream::client::{
    connection_error, normalize_proxy, read_chat, read_models, read_signin, read_verify,
    DeleteStep, QwenClient,
};
use qwen2api_rs::upstream::digest::sha256_hex;
use qwen2api_rs::upstream::error::AppError;
use qwen2api_rs::upstream::executor::{
    classify, classify_and_mark, Blame, ChatStep, Closing, Executor, Mark, Pooled, Stage, StreamRun,
};
use qwen2api_rs::upstream::frames::{find_subslice, Framer};
use qwen2api_rs::upstream::http::{HttpRequest, Method};

fn header<'a>(q: &'a HttpRequest, name: &str) -> Vec<&'a str> {
    q.headers.iter().filter(|h| h.0 == name).map(|h| h.1.as_str()).collect()
}

fn unauthorized<T>(r: Result<T, AppError>) -> String {
    match r {
        Err(AppError::Unauthorized(m)) => m,
        _ => panic!("should be turned away"),
    }
}

fn upstream<T>(r: Result<T, AppError>) -> String {
    match r {
        Err(AppError::Upstream(m)) => m,
        _ => panic!("should be an upstream error"),
    }
}

#[test]
fn digest_of_a_password() {
    assert_eq!(
        sha256_hex("abc"),
        "ba7816bf8f01cfea414140de5dae2223b00361a396177a9cb410ff61f20015ad"
    );
    assert_eq!(
        sha256_hex(""),
        "e3b0c44298fc1c149afbf4c8996fb92427ae41e4649b934ca495991b7852b855"
    );
}

#[test]
fn signin_sends_the_digest() {
    let c = QwenClient::default();
    let q = match c.signin("a@b", "abc", "id-1") {
        Ok(q) => q,
        Err(_) => panic!("should be sent"),
    };
    assert_eq!(q.method, Method::Post);
    assert_eq!(q.url, "https://chat.qwen.ai/api/v1/auths/signin");
    assert_eq!(
        q.body.as_deref(),
        Some("{\"email\":\"a@b\",\"password\":\"ba7816bf8f01cfea414140de5dae2223b00361a396177a9cb410ff61f20015ad\"}")
    );
    assert_eq!(q.timeout_ms, Some(20_000));
    assert_eq!(header(&q, "x-request-id"), vec!["id-1"]);
    assert_eq!(header(&q, "Referer"), vec!["https://chat.qwen.ai/auth"]);
    assert_eq!(unauthorized(c.signin("a@b", "", "id")), "帳號無 password 欄位，無法重登");
}

#[test]
fn signin_replies() {
    let c = QwenClient::default();
    assert!(matches!(c.signin_reply(200, "{\"token\": \"t\"}"), Ok(t) if t == "t"));
    assert_eq!(upstream(c.signin_reply(200, "{\"token\": \"\"}")), "signin 200 但 token 欄位空");
    assert_eq!(upstream(c.signin_reply(200, "{}")), "signin 200 但 token 欄位空");
    assert!(upstream(c.signin_reply(200, "<html>")).starts_with("signin 回應解析失敗: expected value"));
    assert_eq!(
        unauthorized(c.signin_reply(400, "{\"detail\": \"incorrect\"}")),
        "signin HTTP 400: incorrect"
    );
    assert_eq!(unauthorized(c.signin_reply(403, "no")), "signin HTTP 403: no");
    assert_eq!(
        upstream(c.signin_reply(500, &"x".repeat(200))),
        format!("signin HTTP 500: {}", "x".repeat(160))
    );
    assert_eq!(
        unauthorized(read_signin(401, "raw", &Err("bad".to_string()))),
        "signin HTTP 401: raw"
    );
    assert_eq!(connection_error("signin", "refused").message(), "signin 連線失敗: refused");
}

#[test]
fn token_checks() {
    let c = QwenClient::default();
    assert!(c.verify_token("", "id").is_none());
    let q = c.verify_token("tok", "id").unwrap();
    assert_eq!(q.method, Method::Get);
    assert_eq!(q.url, "https://chat.qwen.ai/api/v1/auths/");
    assert_eq!(header(&q, "Authorization"), vec!["Bearer tok"]);
    assert_eq!(q.timeout_ms, Some(15_000));
    assert!(q.body.is_none());
    assert!(c.verify_reply(200, "{\"role\": \"user\"}"));
    assert!(!c.verify_reply(200, "{\"role\": \"guest\"}"));
    assert!(!c.verify_reply(401, "{\"role\": \"user\"}"));
    assert!(c.verify_reply(200, "<!DOCTYPE html>"));
    assert!(c.verify_reply(200, "x ALIYUN_WAF x"));
    assert!(!c.verify_reply(200, "oops"));
    assert!(read_verify(200, &Err("e".to_string()), "aliyun_waf"));
    assert!(!read_verify(200, &Ok(Json::Null), "aliyun_waf"));
}

#[test]
fn lists_of_models() {
    let c = QwenClient::default();
    let q = c.list_models("tok", "id");
    assert_eq!(q.url, "https://chat.qwen.ai/api/models");
    let got = c.models_reply(200, b"{\"data\": [1, {\"id\": \"m\"}]}");
    assert_eq!(got.len(), 2);
    assert_eq!(got[1].to_text(), "{\"id\":\"m\"}");
    assert!(c.models_reply(200, b"{\"data\": 3}").is_empty());
    assert!(c.models_reply(200, b"no").is_empty());
    assert!(c.models_reply(500, b"{\"data\": [1]}").is_empty());
    assert!(read_models(200, &None).is_empty());
}

#[test]
fn chat_requests_and_replies() {
    let c = QwenClient::default();
    let q = c.create_chat("tok", "m", "t2t", 1700000000, "id");
    assert_eq!(q.url, "https://chat.qwen.ai/api/v2/chats/new");
    assert_eq!(
        q.body.as_deref(),
        Some("{\"chat_mode\":\"normal\",\"chat_type\":\"t2t\",\"models\":[\"m\"],\"timestamp\":1700000000,\"title\":\"api_1700000000\"}")
    );
    assert_eq!(header(&q, "Content-Type"), vec!["application/json"]);
    assert!(matches!(
        c.chat_reply(200, "{\"success\": true, \"data\": {\"id\": \"c1\"}}"),
        Ok(id) if id == "c1"
    ));
    assert_eq!(
        upstream(c.chat_reply(200, "{\"success\": true}")),
        "create_chat 缺少 data.id"
    );
    assert!(upstream(c.chat_reply(200, "<")).starts_with("create_chat parse error: "));
    assert_eq!(
        unauthorized(c.chat_reply(200, "{\"success\": false, \"m\": \"TOKEN\"}")),
        "account issue: {\"success\": false, \"m\": \"TOKEN\"}"
    );
    assert_eq!(
        upstream(c.chat_reply(200, "{\"success\": false}")),
        "Qwen API returned success=false"
    );
    assert_eq!(unauthorized(c.chat_reply(401, "x")), "create_chat HTTP 401: x");
    assert_eq!(unauthorized(c.chat_reply(500, "Please Login")), "create_chat HTTP 500: Please Login");
    assert_eq!(upstream(c.chat_reply(429, "slow")), "429 Too Many Requests");
    assert_eq!(upstream(c.chat_reply(502, "bad")), "create_chat HTTP 502: bad");
    assert_eq!(
        unauthorized(read_chat(500, "text", "forbidden", &Err(String::new()))),
        "create_chat HTTP 500: text"
    );
}

#[test]
fn deleting_chats() {
    let c = QwenClient::default();
    assert!(c.delete_chat("", "c", "id").is_none());
    assert!(c.delete_chat("t", "", "id").is_none());
    let q = c.delete_chat("t", "c9", "id").unwrap();
    assert_eq!(q.method, Method::Delete);
    assert_eq!(q.url, "https://chat.qwen.ai/api/v2/chats/c9");
    assert!(c.delete_reply(200) && c.delete_reply(204) && c.delete_reply(404));
    assert!(!c.delete_reply(500));
    assert_eq!(c.delete_chat_reliable(3, 100, 1, true), DeleteStep::Done);
    assert_eq!(c.delete_chat_reliable(3, 100, 1, false), DeleteStep::Retry { sleep_ms: 100 });
    assert_eq!(c.delete_chat_reliable(3, 100, 2, false), DeleteStep::Retry { sleep_ms: 200 });
    assert_eq!(c.delete_chat_reliable(3, 100, 3, false), DeleteStep::GaveUp);
    assert_eq!(c.delete_chat_reliable(0, 100, 1, false), DeleteStep::GaveUp);
}

#[test]
fn starting_streams() {
    let c = QwenClient::default();
    let payload = Json::parse("{\"b\": 1, \"a\": [true, null]}").unwrap();
    let q = c.start_stream("t", "c1", &payload, "id");
    assert_eq!(q.url, "https://chat.qwen.ai/api/v2/chat/completions?chat_id=c1");
    assert_eq!(q.body.as_deref(), Some("{\"a\":[true,null],\"b\":1}"));
    assert_eq!(
        header(&q, "Accept"),
        vec!["application/json, text/plain, */*", "text/event-stream"]
    );
    assert_eq!(q.timeout_ms, None);
    assert!(c.stream_reply(200, "").is_ok());
    assert_eq!(upstream(c.stream_reply(429, "x")), "429: x");
    assert_eq!(unauthorized(c.stream_reply(401, "x")), "HTTP 401: x");
    assert_eq!(
        upstream(c.stream_reply(500, &"y".repeat(300))),
        format!("HTTP 500: {}", "y".repeat(200))
    );
}

#[test]
fn proxies_are_cleaned() {
    let mut c = QwenClient::new(Some(" p ".to_string()));
    assert_eq!(c.proxy(), Some(" p ".to_string()));
    assert_eq!(normalize_proxy(&c.proxy()), Some("p".to_string()));
    c.set_proxy(Some(" http://x \n".to_string()));
    assert_eq!(c.proxy(), Some("http://x".to_string()));
    c.set_proxy(Some("  ".to_string()));
    assert_eq!(c.proxy(), None);
    c.set_proxy(None);
    assert_eq!(c.proxy(), None);
}

#[test]
fn subslices_are_found() {
    assert_eq!(find_subslice(b"ab\n\ncd", b"\n\n"), Some(2));
    assert_eq!(find_subslice(b"\n\n\n", b"\n\n"), Some(0));
    assert_eq!(find_subslice(b"abc", b"\n\n"), None);
    assert_eq!(find_subslice(b"a", b"ab"), None);
    assert_eq!(find_subslice(b"abc", b""), None);
    assert_eq!(find_subslice(b"aab", b"ab"), Some(1));
}

fn cut(chunks: &[&[u8]]) -> (Vec<String>, Option<String>) {
    let mut f = Framer::new();
    let mut out = Vec::new();
    for c in chunks {
        f.feed(c);
        while let Some(m) = f.next_message() {
            out.push(m);
        }
    }
    (out, f.take_rest())
}

#[test]
fn frames_do_not_depend_on_chunks() {
    let bytes = "data: é\n\ndata: 2\n\n\n\nrest".as_bytes();
    let whole = cut(&[bytes]);
    assert_eq!(
        whole.0,
        vec!["data: é".to_string(), "data: 2".to_string(), String::new()]
    );
    assert_eq!(whole.1, Some("rest".to_string()));
    for i in 0..bytes.len() {
        assert_eq!(cut(&[&bytes[..i], &bytes[i..]]), whole);
    }
    assert_eq!(cut(&[b"a\n\n"]).1, None);
    assert_eq!(cut(&[&[0xff, b'\n', b'\n']]).0, vec!["\u{fffd}".to_string()]);
}

#[test]
fn errors_are_classified() {
    assert_eq!(classify("http 429"), Blame::RateLimited);
    assert_eq!(classify("rate limit"), Blame::RateLimited);
    assert_eq!(classify("code=ratelimited"), Blame::RateLimited);
    assert_eq!(classify("too many"), Blame::RateLimited);
    assert_eq!(classify("upper limit"), Blame::RateLimited);
    assert_eq!(classify("today's usage"), Blame::RateLimited);
    assert_eq!(classify("401 and 429"), Blame::RateLimited);
    assert_eq!(classify("unauthorized"), Blame::AuthError);
    assert_eq!(classify("http 403"), Blame::AuthError);
    assert_eq!(classify("401 pending"), Blame::PendingActivation);
    assert_eq!(classify("401 activation"), Blame::PendingActivation);
    assert_eq!(classify("activation"), Blame::Nothing);
    assert_eq!(classify("timeout"), Blame::Nothing);
    assert!(matches!(
        classify_and_mark("e", "Too Many"),
        Some(Mark::RateLimited { email }) if email == "e"
    ));
    assert!(matches!(
        classify_and_mark("e", "HTTP 401: Pending"),
        Some(Mark::Invalid { email, reason, err })
            if email == "e" && reason == "pending_activation" && err == "HTTP 401: Pending"
    ));
    assert!(classify_and_mark("e", "timeout").is_none());
}

fn handle(email: &str) -> Option<AccountHandle> {
    Some(AccountHandle { email: email.to_string(), token: format!("tok-{email}") })
}

fn delta(content: &str) -> QwenDelta {
    QwenDelta {
        phase: "answer".to_string(),
        content: content.to_string(),
        reasoning_cumulative: None,
        reasoning_incremental: String::new(),
        usage: None,
    }
}

fn error_of(events: &[UpstreamEvent]) -> String {
    match events.last() {
        Some(UpstreamEvent::Error(e)) => e.clone(),
        _ => panic!("should be an error"),
    }
}

fn start(max_retries: u32) -> StreamRun {
    let (run, turn) = Executor::new(max_retries, 3, 500).run_stream(StreamParams::default());
    assert!(turn.events.is_empty());
    run
}

#[test]
fn a_run_that_succeeds() {
    let mut run = start(3);
    assert!(run.fixed_account().is_none());
    let turn = run.on_account(handle("a"));
    assert!(turn.events.is_empty() && turn.cleanup.is_none());
    assert!(matches!(run.obtain_chat_id(Pooled::NotAsked), ChatStep::AskPool));
    assert!(matches!(run.obtain_chat_id(Pooled::Empty), ChatStep::Create));
    let warm = run.obtain_chat_id(Pooled::Chat("c1".to_string()));
    assert!(matches!(warm, ChatStep::Use(id) if id == "c1"));
    let turn = run.on_chat("c1".to_string());
    assert!(matches!(
        &turn.events[0],
        UpstreamEvent::Meta { chat_id, email } if chat_id == "c1" && email == "a"
    ));
    run.on_started();
    run.on_bytes(b"one\n\ntw");
    assert_eq!(run.next_message(), Some("one".to_string()));
    assert_eq!(run.next_message(), None);
    let turn = run.on_message(None, vec![delta("x")]);
    assert_eq!(turn.events.len(), 1);
    let rest = match run.on_close() {
        Closing::Rest(m) => m,
        Closing::Over(_) => panic!("something is left"),
    };
    assert_eq!(rest, "tw");
    let turn = run.on_last_message(None, vec![delta("y")]);
    assert_eq!(turn.events.len(), 2);
    assert!(matches!(turn.events[1], UpstreamEvent::Done));
    assert!(matches!(turn.mark, Some(Mark::Success { email }) if email == "a"));
    let held = turn.cleanup.unwrap();
    assert_eq!(held.email, "a");
    assert_eq!(held.token, "tok-a");
    assert!(held.pooled);
    assert_eq!(held.chat_id, Some("c1".to_string()));
    assert_eq!(run.stage, Stage::Ended);
    assert!(run.abort().is_none());
}

#[test]
fn a_run_that_tries_other_accounts() {
    let mut run = start(2);
    run.on_account(handle("a"));
    let turn = run.on_chat_failed("create_chat HTTP 401: x");
    assert!(matches!(turn.mark, Some(Mark::Invalid { .. })));
    assert!(turn.events.is_empty());
    let held = turn.cleanup.unwrap();
    assert_eq!(held.email, "a");
    assert_eq!(held.chat_id, None);
    assert!(run.exclude.contains("a"));
    run.on_account(handle("b"));
    run.on_chat("c2".to_string());
    let turn = run.on_start_failed("429: slow");
    assert!(matches!(turn.mark, Some(Mark::RateLimited { .. })));
    assert_eq!(turn.cleanup.unwrap().chat_id, Some("c2".to_string()));
    assert_eq!(error_of(&turn.events), "全部 2 次嘗試失敗。最後錯誤: 429: slow");
    assert_eq!(run.stage, Stage::Ended);
}

#[test]
fn a_run_without_accounts() {
    let mut run = start(3);
    let turn = run.on_account(None);
    assert_eq!(error_of(&turn.events), "帳號池無可用帳號（全忙或限流）");
    let mut run = start(3);
    run.on_account(handle("a"));
    run.on_chat_failed("boom");
    let turn = run.on_account(None);
    assert_eq!(error_of(&turn.events), "boom");
    let (run, turn) = Executor::new(0, 1, 1).run_stream(StreamParams::default());
    assert_eq!(error_of(&turn.events), "全部 0 次嘗試失敗。最後錯誤: 未知");
    assert_eq!(run.stage, Stage::Ended);
}

#[test]
fn a_run_that_breaks_off() {
    // Before the first part there is another try.
    let mut run = start(2);
    run.on_account(handle("a"));
    run.on_chat("c".to_string());
    run.on_started();
    let turn = run.on_message(Some("upper limit".to_string()), vec![]);
    assert!(turn.events.is_empty());
    assert!(matches!(turn.mark, Some(Mark::RateLimited { .. })));
    assert_eq!(run.stage, Stage::Account);
    // After it there is none.
    run.on_account(handle("b"));
    run.on_chat("c".to_string());
    run.on_started();
    run.on_message(None, vec![delta("x")]);
    let turn = run.on_read_error("reset");
    assert_eq!(error_of(&turn.events), "串流讀取錯誤: reset");
    assert!(turn.mark.is_none());
    assert_eq!(turn.cleanup.unwrap().email, "b");
    assert_eq!(run.stage, Stage::Ended);
}

#[test]
fn a_run_with_a_fixed_account_and_chat() {
    let mut params = StreamParams::default();
    params.fixed_account = Some("f".to_string());
    params.existing_chat_id = Some("given".to_string());
    params.max_retries = Some(9);
    let (mut run, _) = Executor::new(5, 1, 1).run_stream(params);
    assert_eq!(run.attempts, 1);
    assert_eq!(run.fixed_account(), Some("f".to_string()));
    let step = run.obtain_chat_id(Pooled::NotAsked);
    assert!(matches!(step, ChatStep::Use(id) if id == "given"));
    run.on_account(handle("f"));
    run.on_chat("given".to_string());
    run.on_started();
    let turn = match run.on_close() {
        Closing::Over(t) => t,
        Closing::Rest(_) => panic!("nothing is left"),
    };
    assert!(turn.mark.is_none());
    let held = turn.cleanup.unwrap();
    assert!(!held.pooled);
    assert_eq!(held.chat_id, None);
    let mut params = StreamParams::default();
    params.fixed_account = Some("g".to_string());
    let (mut run, _) = Executor::new(5, 1, 1).run_stream(params);
    let turn = run.on_account(None);
    assert_eq!(error_of(&turn.events), "指定帳號不存在: g");
}

#[test]
fn a_run_that_is_dropped_lets_go() {
    let mut run = start(3);
    run.on_account(handle("a"));
    run.on_chat("c".to_string());
    let held = run.abort().unwrap();
    assert_eq!(held.email, "a");
    assert_eq!(held.chat_id, Some("c".to_string()));
    assert_eq!(run.stage, Stage::Ended);
    assert!(run.abort().is_none());
}

#[test]
fn chats_come_from_where_they_should() {
    let mut params = StreamParams::default();
    params.use_prewarmed = false;
    let (run, _) = Executor::new(1, 1, 1).run_stream(params);
    assert!(matches!(run.obtain_chat_id(Pooled::NotAsked), ChatStep::Create));
    let mut params = StreamParams::default();
    params.chat_type = "t2i".to_string();
    let (run, _) = Executor::new(1, 1, 1).run_stream(params);
    assert!(matches!(run.obtain_chat_id(Pooled::NotAsked), ChatStep::Create));
}

#[test]
fn lower_case_is_what_unicode_says() {
    // A capital sharp s and a dotted capital i have lower cases of other lengths in UTF-8.
    assert!(matches!(
        classify_and_mark("e", "UNAUTHORİZED 401"),
        Some(Mark::Invalid { reason, .. }) if reason == "auth_error"
    ));
    assert!(matches!(classify_and_mark("e", "RATE LIMIT ẞ"), Some(Mark::RateLimited { .. })));
}

#[test]
fn another_try_takes_another_account() {
    let settings = PoolSettings {
        max_inflight_per_account: 2,
        pool_ready_index: true,
        account_min_interval_ms: 0,
        request_jitter_min_ms: 0,
        request_jitter_max_ms: 0,
        rate_limit_base_cooldown: 600,
        rate_limit_max_cooldown: 3600,
        auth_error_fail_threshold: 3,
    };
    let named = |e: &str| {
        Account::new(e.to_string(), String::new(), format!("tok-{e}"), String::new(), String::new())
    };
    let mut pool = AccountPool::load(&settings, vec![named("a"), named("b")], 1);
    let mut run = start(3);
    let first = pool.acquire(None, &run.exclude, 1, 0).unwrap();
    assert_eq!(first.email, "a");
    run.on_account(Some(first));
    let held = run.on_chat_failed("timeout").cleanup.unwrap();
    pool.release(&held.email, 2);
    let second = pool.acquire(None, &run.exclude, 2, 0).unwrap();
    assert_eq!(second.email, "b");
    run.on_account(Some(second));
    let held = run.on_chat_failed("timeout").cleanup.unwrap();
    pool.release(&held.email, 3);
    assert!(pool.acquire(None, &run.exclude, 3, 0).is_none());
    assert_eq!(pool.state.global_in_use, 0);
}
