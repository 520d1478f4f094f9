//! The run of a request.

use qwen2api_rs::email_set::EmailSet;
use qwen2api_rs::events::{OutEvent, ParsedToolCall, QwenDelta, UpstreamEvent};
use qwen2api_rs::execution::buffer::{parse_upstream_usage, ContentBuffer, ReasoningTracker};
use qwen2api_rs::execution::completion::{collect_completion, run_completion, Completion, Next};
use qwen2api_rs::execution::delivery::{deliver, stage6_resolve_tools, stage7_deliver};
use qwen2api_rs::execution::probe::truncate_caller;
use qwen2api_rs::execution::request::{stage1_intake, stage3_bind, StandardRequest, StreamParams};
use qwen2api_rs::json::Json;
use qwen2api_rs::tokens::{count_tokens, is_tokenizable, Usage};

fn request(chat_type: &str, prompt: &str, stream: bool, bound: Option<&str>) -> StandardRequest {
    StandardRequest {
        response_model: "gpt-4o".to_string(),
        resolved_model: "qwen3-max".to_string(),
        prompt: prompt.to_string(),
        stream,
        thinking_enabled: None,
        force_thinking: false,
        enable_search: false,
        chat_type: chat_type.to_string(),
        tools: vec![],
        tool_names: vec![],
        surface: "openai".to_string(),
        image_options: None,
        max_tokens: None,
        client_profile: "generic".to_string(),
        files: vec![],
        bound_account: bound.map(|b| b.to_string()),
        caller: None,
        exclude_accounts: EmailSet::new(),
    }
}

fn delta(phase: &str, content: &str) -> QwenDelta {
    QwenDelta {
        phase: phase.to_string(),
        content: content.to_string(),
        reasoning_cumulative: None,
        reasoning_incremental: String::new(),
        usage: None,
    }
}

fn content_of(events: &[OutEvent]) -> String {
    let mut out = String::new();
    for e in events {
        if let OutEvent::ContentDelta(c) = e {
            out.push_str(c);
        }
    }
    out
}

#[test]
fn stage1_intake_t2t_uses_prewarmed() {
    let std = request("t2t", "hello", true, None);
    let params = stage1_intake(&std);
    assert!(params.use_prewarmed);
    assert_eq!(params.chat_type, "t2t");
}

#[test]
fn stage1_intake_bound_account_disables_prewarmed() {
    let std = request("t2t", "hello", true, Some("fixed@test.com"));
    let params = stage1_intake(&std);
    assert!(!params.use_prewarmed);
    assert_eq!(params.fixed_account, Some("fixed@test.com".to_string()));
}

#[test]
fn stage1_intake_media_sets_max_retries_1() {
    let mut std = request("t2i", "a cat", false, None);
    std.response_model = "dall-e-3".to_string();
    let params = stage1_intake(&std);
    assert_eq!(params.max_retries, Some(1));
}

#[test]
fn intake_and_binding_hand_everything_on() {
    let mut std = request("t2v", "p", false, None);
    std.tools.push(Json::parse("{\"name\": \"x\"}").unwrap());
    std.files.push(Json::parse("7").unwrap());
    std.exclude_accounts.insert("bad".to_string());
    std.enable_search = true;
    std.thinking_enabled = Some(true);
    std.image_options = Some(Json::parse("{\"size\": \"1:1\"}").unwrap());
    let p = stage3_bind(&stage1_intake(&std));
    assert_eq!(p.model, "qwen3-max");
    assert_eq!(p.content, "p");
    assert!(p.has_custom_tools);
    assert_eq!(p.files.len(), 1);
    assert_eq!(p.image_options.unwrap().to_text(), "{\"size\":\"1:1\"}");
    assert_eq!(p.thinking_enabled, Some(true));
    assert!(p.enable_search);
    assert_eq!(p.existing_chat_id, None);
    assert!(p.delete_on_close);
    assert!(!p.use_prewarmed);
    assert_eq!(p.max_retries, Some(1));
    assert!(p.exclude.contains("bad"));
}

#[test]
fn default_params() {
    let p = StreamParams::default();
    assert_eq!(p.chat_type, "t2t");
    assert!(p.delete_on_close && p.use_prewarmed && !p.has_custom_tools);
    assert_eq!(p.max_retries, None);
}

#[test]
fn reasoning_goes_on_where_it_ended() {
    let mut t = ReasoningTracker::new();
    assert_eq!(t.delta(&Some("想".to_string()), ""), "想");
    assert_eq!(t.delta(&Some("想一想".to_string()), ""), "一想");
    assert_eq!(t.delta(&Some("other".to_string()), ""), "other");
    assert_eq!(t.delta(&None, "+"), "+");
    assert_eq!(t.delta(&Some("other+!".to_string()), "ignored"), "!");
    assert_eq!(t.delta(&None, ""), "");
}

#[test]
fn buffer_streams_content_without_tools() {
    let mut b = ContentBuffer::new();
    let (events, first) = b.process_delta(&delta("answer", "Hi"), false);
    assert!(first);
    assert_eq!(content_of(&events), "Hi");
    let (events, first) = b.process_delta(&delta("answer", " there"), false);
    assert!(!first);
    assert_eq!(content_of(&events), " there");
    assert_eq!(b.answer_buf, "Hi there");
    assert!(b.streamed_content);
    assert_eq!(b.phase_counts.get("answer"), Some(&2));
}

#[test]
fn buffer_holds_content_back_with_tools_and_skips_thinking() {
    let mut b = ContentBuffer::new();
    let (events, first) = b.process_delta(&delta("think", "hm"), true);
    assert!(events.is_empty() && !first);
    let (events, _) = b.process_delta(&delta("thinking_summary", "é"), true);
    assert!(events.is_empty());
    assert_eq!(b.skipped_phase_content_chars, 3);
    let (events, first) = b.process_delta(&delta("answer", "x"), true);
    assert!(events.is_empty() && first);
    assert_eq!(b.answer_buf, "x");
    assert!(!b.streamed_content);
    b.last_email = Some("a".to_string());
    b.note_usage(3, 0);
    b.reset();
    assert_eq!(b.answer_buf, "");
    assert_eq!(b.last_out_tokens, 0);
    assert_eq!(b.skipped_phase_content_chars, 0);
    assert_eq!(b.phase_counts.get("answer"), None);
    assert!(!b.ttft_recorded);
    assert_eq!(b.last_email, Some("a".to_string()));
}

#[test]
fn buffer_has_room_up_to_the_machine_limit() {
    let mut b = ContentBuffer::new();
    assert!(b.has_room(&delta("answer", "x")));
    b.skipped_phase_content_chars = usize::MAX;
    assert!(!b.has_room(&delta("answer", "x")));
    assert!(b.has_room(&delta("answer", "")));
}

#[test]
fn usage_of_the_upstream() {
    let full = Json::parse("{\"output_tokens\": 7, \"output_tokens_details\": {\"reasoning_tokens\": 3}}");
    assert_eq!(parse_upstream_usage(&full.unwrap()), (7, 3));
    assert_eq!(parse_upstream_usage(&Json::parse("{\"output_tokens\": \"7\"}").unwrap()), (0, 0));
    assert_eq!(parse_upstream_usage(&Json::parse("{\"output_tokens\": 1.5}").unwrap()), (0, 0));
    assert_eq!(parse_upstream_usage(&Json::Null), (0, 0));
    let mut b = ContentBuffer::new();
    b.note_usage(7, 3);
    b.note_usage(0, -1);
    assert_eq!((b.last_out_tokens, b.last_reasoning_tokens), (7, 3));
}

fn buffered(text: &str) -> ContentBuffer {
    let mut b = ContentBuffer::new();
    b.answer_buf = text.to_string();
    b
}

fn tool_call() -> ParsedToolCall {
    ParsedToolCall { id: "1".to_string(), name: "T".to_string(), arguments: Json::Null }
}

#[test]
fn delivery_with_tools_yields_cleaned_text_then_calls() {
    let b = buffered("raw");
    let r = stage6_resolve_tools("raw", true, vec![tool_call()]);
    let d = deliver(&b, &r, true, "  ok\n", 10);
    assert_eq!(d.events.len(), 2);
    assert!(matches!(&d.events[0], OutEvent::ContentDelta(c) if c == "ok"));
    assert!(matches!(&d.events[1], OutEvent::ToolCalls(c) if c.len() == 1));
    assert_eq!(d.finish_reason, "tool_calls");
    assert_eq!(
        d.usage,
        Usage { prompt_tokens: 10, completion_tokens: 5, total_tokens: 15, reasoning_tokens: 0 }
    );
    assert!(!d.client_saw_nothing);
    assert!(!d.suspicious_short);
}

#[test]
fn delivery_fails_open() {
    let b = buffered(" <tool_call>broken ");
    let r = stage6_resolve_tools(" <tool_call>broken ", true, vec![]);
    let d = deliver(&b, &r, true, " \n", 1);
    assert_eq!(d.events.len(), 1);
    assert!(matches!(&d.events[0], OutEvent::ContentDelta(c) if c == " <tool_call>broken "));
    assert_eq!(d.finish_reason, "stop");
    assert!(!d.client_saw_nothing);
    assert!(d.suspicious_short);
}

#[test]
fn delivery_of_nothing() {
    let b = buffered(" ");
    let r = stage6_resolve_tools(" ", true, vec![]);
    let d = deliver(&b, &r, true, " ", 1);
    assert!(d.events.is_empty());
    assert!(d.client_saw_nothing);
    assert!(!d.suspicious_short);
}

#[test]
fn delivery_without_tools_adds_nothing_and_uses_the_reported_count() {
    let mut b = buffered("hello");
    b.streamed_content = true;
    b.last_out_tokens = 42;
    b.last_reasoning_tokens = 5;
    b.last_email = Some("e".to_string());
    let r = stage6_resolve_tools("hello", false, vec![]);
    let d = stage7_deliver(&b, &r, false, "", "hello world").unwrap();
    assert!(d.events.is_empty());
    assert_eq!(
        d.usage,
        Usage { prompt_tokens: 2, completion_tokens: 42, total_tokens: 44, reasoning_tokens: 5 }
    );
    assert_eq!(d.email, Some("e".to_string()));
    b.last_out_tokens = 0;
    let d = stage7_deliver(&b, &r, false, "", "hello world").unwrap();
    assert_eq!(d.usage.completion_tokens, 5);
    b.last_out_tokens = i64::MAX;
    assert!(stage7_deliver(&b, &r, false, "", "hello world").is_none());
}

#[test]
fn tokens_are_counted() {
    assert_eq!(count_tokens(""), 0);
    assert_eq!(count_tokens("hello world"), 2);
    assert!(is_tokenizable("hello   world"));
    assert_eq!(Usage::default().total_tokens, 0);
}

#[test]
fn long_runs_of_white_space_are_refused() {
    assert!(is_tokenizable(&" ".repeat(999_983)));
    assert!(is_tokenizable(&(" ".repeat(999_983) + "a")));
    assert!(is_tokenizable(&" ".repeat(999_984)));
    assert!(!is_tokenizable(&(" ".repeat(999_984) + "a")));
    assert!(!is_tokenizable(&" ".repeat(1_000_000)));
}

#[test]
fn long_runs_of_letters_and_symbols_are_refused() {
    assert!(is_tokenizable(&"x".repeat(999_998)));
    assert!(!is_tokenizable(&"x".repeat(999_999)));
    assert!(!is_tokenizable(&(" ".to_string() + &"x".repeat(999_998))));
    assert!(is_tokenizable(&(" ".to_string() + &"-".repeat(999_991) + "\n\n\n\n\n\n")));
    assert!(!is_tokenizable(&(" ".to_string() + &"-".repeat(999_991) + "\n\n\n\n\n\n\n")));
}

#[test]
fn long_texts_of_short_runs_are_taken() {
    assert!(is_tokenizable(&"ab1-".repeat(250_100)));
    assert!(is_tokenizable(&"你好，".repeat(333_400)));
    assert!(is_tokenizable(&"\u{e9}\u{ab}".repeat(500_100)));
    assert!(is_tokenizable(&"\u{661}".repeat(1_000_100)));
    assert!(!is_tokenizable(&"\u{e9}".repeat(1_000_100)));
}

#[test]
fn untokenizable_prompt_has_no_delivery() {
    let b = ContentBuffer::new();
    let r = stage6_resolve_tools("", false, vec![]);
    assert!(stage7_deliver(&b, &r, false, "", &"x".repeat(999_999)).is_none());
    assert!(stage7_deliver(&b, &r, false, "", "x").is_some());
}

#[test]
fn caller_is_cut() {
    assert_eq!(truncate_caller("short"), "short");
    assert_eq!(truncate_caller("123456789012"), "123456789012");
    assert_eq!(truncate_caller("1234567890123"), "123456789012…");
    assert_eq!(truncate_caller("一二三四五六七八九十一二三"), "一二三四五六七八九十一二…");
}

fn drive(run: &mut Completion, events: Vec<UpstreamEvent>) -> (Vec<OutEvent>, Next) {
    let mut out = Vec::new();
    let mut next = Next::More;
    for (i, ev) in events.into_iter().enumerate() {
        let (mut more, n) = run.on_event(ev, i as i64);
        out.append(&mut more);
        next = n;
        if n != Next::More {
            break;
        }
    }
    (out, next)
}

#[test]
fn run_without_tools_streams_and_collects_the_same() {
    let mut std = request("t2t", "hello world", true, None);
    std.caller = Some("a very long caller name".to_string());
    let (mut run, params) = run_completion(&std, 99);
    assert_eq!(params.model, "qwen3-max");
    assert_eq!(run.probe.meta.caller, Some("a very long …".to_string()));
    let mut thinking = delta("think", "secret");
    thinking.reasoning_incremental = "because".to_string();
    let mut last = delta("answer", "lo");
    last.usage = Some(Json::parse("{\"output_tokens\": 3}").unwrap());
    let (mut out, next) = drive(
        &mut run,
        vec![
            UpstreamEvent::Meta { chat_id: "c".to_string(), email: "e".to_string() },
            UpstreamEvent::Delta(thinking),
            UpstreamEvent::Delta(delta("answer", "hel")),
            UpstreamEvent::Delta(last),
            UpstreamEvent::Done,
        ],
    );
    assert_eq!(next, Next::Finish);
    assert_eq!(run.probe.ttft_ms, Some(1));
    let mut end = run.finish(vec![], "").unwrap().events;
    out.append(&mut end);
    let whole = collect_completion(out);
    assert_eq!(whole.content, "hello");
    assert_eq!(whole.reasoning, "because");
    assert_eq!(whole.finish_reason, "stop");
    assert_eq!(whole.email, Some("e".to_string()));
    assert_eq!(
        whole.usage,
        Usage { prompt_tokens: 2, completion_tokens: 3, total_tokens: 5, reasoning_tokens: 0 }
    );
    assert!(whole.tool_calls.is_empty());
    assert!(whole.error.is_none());
    let record = run.probe.record(250);
    assert!(record.success);
    assert_eq!(record.ts_ms, 99);
    assert_eq!(record.duration_ms, 250);
    assert_eq!(record.total_tokens, 5);
    assert_eq!(record.ttft_ms, Some(1));
    assert_eq!(record.model, "gpt-4o");
    assert_eq!(record.resolved_model, "qwen3-max");
}

#[test]
fn run_with_tools_delivers_calls_at_the_end() {
    let mut std = request("t2t", "p", false, None);
    std.tools.push(Json::Null);
    let (mut run, params) = run_completion(&std, 0);
    assert!(params.has_custom_tools);
    let (mut out, _) = drive(
        &mut run,
        vec![UpstreamEvent::Delta(delta("answer", "text")), UpstreamEvent::Done],
    );
    assert!(out.is_empty());
    let mut end = run.finish(vec![tool_call(), tool_call()], "").unwrap();
    assert!(end.polluted_tools.is_empty());
    assert!(!end.client_saw_nothing && !end.suspicious_short);
    out.append(&mut end.events);
    let whole = collect_completion(out);
    assert_eq!(whole.content, "");
    assert_eq!(whole.tool_calls.len(), 1);
    assert_eq!(whole.finish_reason, "tool_calls");
}

#[test]
fn error_ends_the_run() {
    let std = request("t2t", "p", true, None);
    let (mut run, _) = run_completion(&std, 0);
    let (out, next) = drive(
        &mut run,
        vec![
            UpstreamEvent::Delta(delta("answer", "x")),
            UpstreamEvent::Error("boom".to_string()),
            UpstreamEvent::Done,
        ],
    );
    assert_eq!(next, Next::Stop);
    let whole = collect_completion(out);
    assert_eq!(whole.error, Some("boom".to_string()));
    assert_eq!(whole.content, "x");
    let record = run.probe.record(1);
    assert!(!record.success);
    assert_eq!(record.error, Some("boom".to_string()));
}

#[test]
fn retry_starts_again() {
    let std = request("t2t", "p", true, None);
    let (mut run, _) = run_completion(&std, 0);
    drive(
        &mut run,
        vec![
            UpstreamEvent::Delta(delta("answer", "lost")),
            UpstreamEvent::Retrying,
            UpstreamEvent::Delta(delta("answer", "kept")),
        ],
    );
    assert_eq!(run.buffer.answer_buf, "kept");
}
