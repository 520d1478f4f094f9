//! What the run of a request does with what comes in, event by event.

use vstd::prelude::*;
use vstd::string::*;

use super::buffer::{parse_upstream_usage, BufferView, ContentBuffer, ReasoningTracker};
use super::completion::{
    closed, collect_completion, next_after, run_completion, CollectedResult, CollectedView,
    Completion, Finish, Next,
};
use super::delivery::{
    polluted_names, resolved_calls, stage6_resolve_tools, stage7_deliver, Delivery, ToolResolution,
};
use super::laws::{
    answer_of, lemma_buffer_holds_answer, lemma_client_gets_answer, lemma_no_calls_before_end,
    lemma_plus_all_concat, one_try,
};
use super::probe::{ProbeView, RequestRecord, StatsProbe};
use super::request::{json_views, StandardRequest, StreamParams};
use crate::events::{
    call_views, event_views, opt_json_view, DeltaView, OutEvent, OutEventView, ParsedToolCall,
    QwenDelta, ToolCallView, UpstreamEvent, UpstreamView,
};
use crate::json::{number_as_i64, text_of_json, Json, JsonView};
use crate::text::{opt_view, trimmed};
use crate::tokens::{cl100k_tokens, tokenizable, Usage};
use crate::toolcall_laws::lemma_dedup_keeps_the_first;
use crate::toolcalls::{coerced, deduped, polluted};
use crate::upstream::executor::RunView;

verus! {

/// How often a request is tried: a text as often as the executor allows, an image or a video once,
/// and anything once where the account is bound.
pub proof fn lemma_tries_of_a_request(
    std: &StandardRequest,
    start_ms: i64,
    r: (Completion, StreamParams),
    max_retries: u32,
)
    requires
        call_ensures(run_completion, (std, start_ms), r),
    ensures
        ({
            let attempts = RunView::start(r.1@, max_retries).attempts;
            let media = std.chat_type@ == "t2i"@ || std.chat_type@ == "t2v"@;
            &&& std.bound_account is None && !media ==> attempts == max_retries
            &&& std.bound_account is None && media ==> attempts == 1
            &&& std.bound_account is Some ==> attempts == 1
        }),
{
}

/// A request goes to the upstream as it came in: its model, prompt, files and options, the account
/// that it is bound to and those that must not serve it. It gets a new chat, which is deleted
/// afterwards; one created in advance will do for a text on any account.
pub proof fn lemma_request_is_passed_on(
    std: &StandardRequest,
    start_ms: i64,
    r: (Completion, StreamParams),
)
    requires
        call_ensures(run_completion, (std, start_ms), r),
    ensures
        r.1@.model == std.resolved_model@,
        r.1@.content == std.prompt@,
        r.1@.has_custom_tools == (std.tools@.len() > 0),
        r.1@.files == json_views(std.files@),
        r.1@.chat_type == std.chat_type@,
        r.1@.image_options == opt_json_view(std.image_options),
        r.1@.thinking_enabled == std.thinking_enabled,
        r.1@.enable_search == std.enable_search,
        r.1@.fixed_account == opt_view(std.bound_account),
        r.1@.existing_chat_id is None,
        r.1@.delete_on_close,
        r.1@.use_prewarmed <==> std.chat_type@ == "t2t"@ && std.bound_account is None,
        r.1@.exclude == std.exclude_accounts@,
        r.0.has_tools == (std.tools@.len() > 0),
        r.0.prompt@ == std.prompt@,
        r.0.buffer@.answer.len() == 0,
        r.0.buffer@.out_tokens == 0,
        r.0.buffer@.reasoning_tokens == 0,
        !r.0.buffer@.streamed,
        !r.0.probe@.success,
        r.0.probe@.error is None,
        r.0.probe@.ttft_ms is None,
        r.0.probe@.start_ms == start_ms,
        r.0.probe@.meta.surface == std.surface@,
        r.0.probe@.meta.model == std.response_model@,
        r.0.probe@.meta.resolved_model == std.resolved_model@,
        r.0.probe@.meta.chat_type == std.chat_type@,
        r.0.probe@.meta.stream == std.stream,
        std.caller is None ==> r.0.probe@.meta.caller is None,
        std.caller matches Some(c) ==> r.0.probe@.meta.caller == Some(
            if c@.len() <= 12 {
                c@
            } else {
                c@.take(12) + "…"@
            },
        ),
{
}

/// The integer that an object holds under a name; zero where it holds none.
pub open spec fn integer_at(j: JsonView, name: Seq<char>) -> int {
    match j {
        JsonView::Object(m) => if m.contains_key(name) {
            match m[name] {
                JsonView::Number(n) => match number_as_i64(n) {
                    Some(i) => i as int,
                    None => 0,
                },
                _ => 0,
            }
        } else {
            0
        },
        _ => 0,
    }
}

/// The count that an increment reports under a name of its usage; none unless it is an integer.
pub open spec fn reported(ev: UpstreamView, name: Seq<char>) -> int {
    match ev {
        UpstreamView::Delta(d) => match d.usage {
            Some(u) => integer_at(u, name),
            None => 0,
        },
        _ => 0,
    }
}

/// The tokens of the reasoning that an increment reports among the details of its usage.
pub open spec fn reported_reasoning(ev: UpstreamView) -> int {
    match ev {
        UpstreamView::Delta(d) => match d.usage {
            Some(JsonView::Object(m)) => if m.contains_key("output_tokens_details"@) {
                integer_at(m["output_tokens_details"@], "reasoning_tokens"@)
            } else {
                0
            },
            _ => 0,
        },
        _ => 0,
    }
}

/// Event `i` is the last one with a positive count.
pub open spec fn is_last_report(
    evs: Seq<UpstreamView>,
    counts: spec_fn(UpstreamView) -> int,
    i: int,
) -> bool {
    &&& 0 <= i < evs.len()
    &&& counts(evs[i]) > 0
    &&& forall|j: int| i < j < evs.len() ==> counts(#[trigger] evs[j]) <= 0
}

/// No event has a positive count.
pub open spec fn has_no_report(evs: Seq<UpstreamView>, counts: spec_fn(UpstreamView) -> int) -> bool {
    forall|j: int| 0 <= j < evs.len() ==> counts(#[trigger] evs[j]) <= 0
}

/// Of what the upstream reports the last word counts: the buffer holds the last positive number of
/// output tokens and the last positive number of reasoning tokens, and what it held before where
/// there is none.
pub proof fn lemma_last_report_counts(
    b: BufferView,
    evs: Seq<UpstreamView>,
    has_tools: bool,
    i: int,
)
    requires
        one_try(evs),
    ensures
        ({
            let output = |ev: UpstreamView| reported(ev, "output_tokens"@);
            let reasoning = |ev: UpstreamView| reported_reasoning(ev);
            let after = b.after_all(evs, has_tools);
            &&& is_last_report(evs, output, i) ==> after.out_tokens == output(evs[i])
            &&& has_no_report(evs, output) ==> after.out_tokens == b.out_tokens
            &&& is_last_report(evs, reasoning, i) ==> after.reasoning_tokens == reasoning(evs[i])
            &&& has_no_report(evs, reasoning) ==> after.reasoning_tokens == b.reasoning_tokens
        }),
    decreases evs.len(),
{
    let output = |ev: UpstreamView| reported(ev, "output_tokens"@);
    let reasoning = |ev: UpstreamView| reported_reasoning(ev);
    if evs.len() > 0 {
        let shorter = evs.drop_last();
        let n = evs.len() - 1;
        assert(one_try(shorter)) by {
            assert forall|k: int| 0 <= k < shorter.len() implies !(
            #[trigger] shorter[k] is Retrying) by {
                assert(shorter[k] == evs[k]);
            }
        }
        assert(!(evs[n] is Retrying));
        lemma_last_report_counts(b, shorter, has_tools, i);
        if i < n && is_last_report(evs, output, i) {
            assert(output(evs[n]) <= 0);
            assert(is_last_report(shorter, output, i)) by {
                assert(shorter[i] == evs[i]);
                assert forall|j: int| i < j < shorter.len() implies output(#[trigger] shorter[j])
                    <= 0 by {
                    assert(shorter[j] == evs[j]);
                }
            }
        }
        if has_no_report(evs, output) {
            assert(output(evs[n]) <= 0);
            assert forall|j: int| 0 <= j < shorter.len() implies output(#[trigger] shorter[j])
                <= 0 by {
                assert(shorter[j] == evs[j]);
            }
        }
        if i < n && is_last_report(evs, reasoning, i) {
            assert(reasoning(evs[n]) <= 0);
            assert(is_last_report(shorter, reasoning, i)) by {
                assert(shorter[i] == evs[i]);
                assert forall|j: int| i < j < shorter.len() implies reasoning(
                    #[trigger] shorter[j],
                ) <= 0 by {
                    assert(shorter[j] == evs[j]);
                }
            }
        }
        if has_no_report(evs, reasoning) {
            assert(reasoning(evs[n]) <= 0);
            assert forall|j: int| 0 <= j < shorter.len() implies reasoning(#[trigger] shorter[j])
                <= 0 by {
                assert(shorter[j] == evs[j]);
            }
        }
    }
}

/// The usage that the client gets: the tokens of its prompt, the last positive number of output
/// tokens that the upstream has reported, or else the characters of the answer (those beside the
/// tool calls where there may be some), and the sum of both.
pub proof fn lemma_usage_of_answer(
    evs: Seq<UpstreamView>,
    has_tools: bool,
    cleaned: Seq<char>,
    calls: Seq<ToolCallView>,
    prompt_tokens: int,
    i: int,
)
    requires
        one_try(evs),
        0 <= prompt_tokens,
        BufferView::empty().after_all(evs, has_tools).usage_fits(has_tools, cleaned, prompt_tokens),
    ensures
        ({
            let output = |ev: UpstreamView| reported(ev, "output_tokens"@);
            let reasoning = |ev: UpstreamView| reported_reasoning(ev);
            let d = BufferView::empty().after_all(evs, has_tools).delivered(
                has_tools,
                cleaned,
                calls,
                false,
                prompt_tokens,
            );
            let u = CollectedView::empty().plus_all(closed(d)).usage;
            &&& u.prompt_tokens == prompt_tokens
            &&& u.total_tokens == u.prompt_tokens + u.completion_tokens
            &&& is_last_report(evs, output, i) ==> u.completion_tokens == output(evs[i])
            &&& has_no_report(evs, output) && has_tools ==> u.completion_tokens == cleaned.len()
            &&& has_no_report(evs, output) && !has_tools ==> u.completion_tokens == answer_of(
                evs,
            ).len()
            &&& is_last_report(evs, reasoning, i) ==> u.reasoning_tokens == reasoning(evs[i])
            &&& has_no_report(evs, reasoning) ==> u.reasoning_tokens == 0
        }),
{
    let b = BufferView::empty().after_all(evs, has_tools);
    let d = b.delivered(has_tools, cleaned, calls, false, prompt_tokens);
    lemma_last_report_counts(BufferView::empty(), evs, has_tools, i);
    lemma_buffer_holds_answer(evs, has_tools);
    assert(closed(d).last() == OutEventView::Done {
        usage: d.usage,
        finish_reason: d.finish_reason,
        email: d.email,
    });
}

/// Each call is one of those that were found, with the usual names for its arguments and nothing
/// else changed.
pub open spec fn each_was_found(
    calls: Seq<ToolCallView>,
    found: Seq<ToolCallView>,
    places: Seq<int>,
) -> bool {
    &&& places.len() == calls.len()
    &&& forall|i: int|
        0 <= i < calls.len() ==> {
            let f = found[places[i]];
            &&& 0 <= places[i] < found.len()
            &&& (#[trigger] calls[i]).id == f.id
            &&& calls[i].name == f.name
            &&& calls[i].arguments == coerced(f.arguments)
        }
}

/// The places go up.
pub open spec fn goes_up(places: Seq<int>) -> bool {
    forall|i: int, j: int|
        0 <= i < j < places.len() ==> #[trigger] places[i] < #[trigger] places[j]
}

/// No call has both the name and the arguments of another.
pub open spec fn all_differ(calls: Seq<ToolCallView>) -> bool {
    forall|i: int, j: int|
        0 <= i < j < calls.len() ==> (#[trigger] calls[i]).name != (#[trigger] calls[j]).name
            || text_of_json(calls[i].arguments) != text_of_json(calls[j].arguments)
}

/// Call `i` has the name and the arguments of what was found at `k`, and was found no later.
pub open spec fn covers(
    calls: Seq<ToolCallView>,
    found: Seq<ToolCallView>,
    places: Seq<int>,
    i: int,
    k: int,
) -> bool {
    &&& 0 <= i < calls.len()
    &&& places[i] <= k
    &&& calls[i].name == found[k].name
    &&& text_of_json(calls[i].arguments) == text_of_json(coerced(found[k].arguments))
}

/// What was found at `k` is there, or an earlier one with its name and its arguments.
pub open spec fn is_there(
    calls: Seq<ToolCallView>,
    found: Seq<ToolCallView>,
    places: Seq<int>,
    k: int,
) -> bool {
    exists|i: int| #[trigger] covers(calls, found, places, i, k)
}

/// Of everything that was found, the first with its name and its arguments is there.
pub open spec fn none_is_missing(
    calls: Seq<ToolCallView>,
    found: Seq<ToolCallView>,
    places: Seq<int>,
) -> bool {
    forall|k: int|
        0 <= k < found.len() ==> #[trigger] is_there(calls, found, places, k)
}

/// The calls are what is left of those that were found: each is one of them, they keep their
/// order, no two are alike, and none is missing.
pub open spec fn kept_of(
    calls: Seq<ToolCallView>,
    found: Seq<ToolCallView>,
    places: Seq<int>,
) -> bool {
    &&& each_was_found(calls, found, places)
    &&& goes_up(places)
    &&& all_differ(calls)
    &&& none_is_missing(calls, found, places)
}

/// One more was found that is like one of those before.
proof fn lemma_kept_repeat(
    calls: Seq<ToolCallView>,
    found: Seq<ToolCallView>,
    places: Seq<int>,
    j: int,
)
    requires
        found.len() > 0,
        kept_of(calls, found.drop_last(), places),
        0 <= j < found.len() - 1,
        found[j].name == found.last().name,
        text_of_json(coerced(found[j].arguments)) == text_of_json(coerced(found.last().arguments)),
    ensures
        kept_of(calls, found, places),
{
    let shorter = found.drop_last();
    assert(each_was_found(calls, found, places)) by {
        assert forall|i: int| 0 <= i < calls.len() implies {
            let f = found[places[i]];
            &&& 0 <= places[i] < found.len()
            &&& (#[trigger] calls[i]).id == f.id
            &&& calls[i].name == f.name
            &&& calls[i].arguments == coerced(f.arguments)
        } by {
            assert(shorter[places[i]] == found[places[i]]);
        }
    }
    assert(none_is_missing(calls, found, places)) by {
        assert forall|k: int| 0 <= k < found.len() implies #[trigger] is_there(
            calls,
            found,
            places,
            k,
        ) by {
            let at = if k < shorter.len() {
                k
            } else {
                j
            };
            assert(is_there(calls, shorter, places, at));
            let i = choose|i: int| #[trigger] covers(calls, shorter, places, i, at);
            assert(shorter[at] == found[at]);
            assert(covers(calls, found, places, i, k));
        }
    }
}

/// One more was found that is like none before.
proof fn lemma_kept_more(
    calls: Seq<ToolCallView>,
    found: Seq<ToolCallView>,
    places: Seq<int>,
)
    requires
        found.len() > 0,
        kept_of(calls, found.drop_last(), places),
        forall|j: int|
            0 <= j < found.len() - 1 ==> !((#[trigger] found[j]).name == found.last().name
                && text_of_json(coerced(found[j].arguments)) == text_of_json(
                coerced(found.last().arguments),
            )),
    ensures
        kept_of(calls.push(found.last().coerced()), found, places.push(found.len() - 1)),
{
    let shorter = found.drop_last();
    let more = calls.push(found.last().coerced());
    let at = places.push(found.len() - 1);
    assert(each_was_found(more, found, at)) by {
        assert forall|i: int| 0 <= i < more.len() implies {
            let f = found[at[i]];
            &&& 0 <= at[i] < found.len()
            &&& (#[trigger] more[i]).id == f.id
            &&& more[i].name == f.name
            &&& more[i].arguments == coerced(f.arguments)
        } by {
            if i < calls.len() {
                assert(more[i] == calls[i]);
                assert(shorter[places[i]] == found[places[i]]);
            }
        }
    }
    assert(goes_up(at)) by {
        assert forall|i: int, j: int| 0 <= i < j < at.len() implies #[trigger] at[i]
            < #[trigger] at[j] by {
            assert(at[i] == places[i]);
            assert(calls[i] == more[i]);
            if j < places.len() {
                assert(at[j] == places[j]);
            }
        }
    }
    assert(all_differ(more)) by {
        assert forall|i: int, j: int| 0 <= i < j < more.len() implies (#[trigger] more[i]).name != (
        #[trigger] more[j]).name || text_of_json(more[i].arguments) != text_of_json(
            more[j].arguments,
        ) by {
            assert(more[i] == calls[i]);
            if j < calls.len() {
                assert(more[j] == calls[j]);
            } else {
                let f = places[i];
                assert(calls[i].id == shorter[f].id);
                assert(shorter[f] == found[f]);
            }
        }
    }
    assert(none_is_missing(more, found, at)) by {
        assert forall|k: int| 0 <= k < found.len() implies #[trigger] is_there(
            more,
            found,
            at,
            k,
        ) by {
            if k < shorter.len() {
                assert(is_there(calls, shorter, places, k));
                let i = choose|i: int| #[trigger] covers(calls, shorter, places, i, k);
                assert(shorter[k] == found[k]);
                assert(covers(more, found, at, i, k));
            } else {
                assert(covers(more, found, at, calls.len() as int, k));
            }
        }
    }
}

proof fn lemma_kept(found: Seq<ToolCallView>)
    ensures
        ({
            let calls = deduped(found.map_values(|c: ToolCallView| c.coerced()));
            exists|places: Seq<int>| #[trigger] kept_of(calls, found, places)
        }),
    decreases found.len(),
{
    let named = found.map_values(|c: ToolCallView| c.coerced());
    let calls = deduped(named);
    if found.len() == 0 {
        assert(kept_of(calls, found, Seq::empty()));
    } else {
        let n = found.len() - 1;
        let shorter = found.drop_last();
        lemma_kept(shorter);
        assert(shorter.map_values(|c: ToolCallView| c.coerced()) =~= named.drop_last());
        assert(named.take(n as int) =~= named.drop_last());
        assert(named.take(n + 1) =~= named);
        let before = deduped(named.drop_last());
        let places = choose|places: Seq<int>| #[trigger] kept_of(before, shorter, places);
        lemma_dedup_keeps_the_first(named, n as int);
        if exists|j: int|
            0 <= j < n && (#[trigger] named[j]).name == named[n as int].name && text_of_json(
                named[j].arguments,
            ) == text_of_json(named[n as int].arguments) {
            let j = choose|j: int|
                0 <= j < n && (#[trigger] named[j]).name == named[n as int].name && text_of_json(
                    named[j].arguments,
                ) == text_of_json(named[n as int].arguments);
            lemma_kept_repeat(before, found, places, j);
            assert(kept_of(calls, found, places));
        } else {
            assert forall|j: int| 0 <= j < n implies !((#[trigger] found[j]).name
                == found.last().name && text_of_json(coerced(found[j].arguments)) == text_of_json(
                coerced(found.last().arguments),
            )) by {
                assert(named[j].name == found[j].name);
            }
            lemma_kept_more(before, found, places);
            assert(kept_of(calls, found, places.push(n as int)));
        }
    }
}

/// With tools nothing of the answer goes to the client before the end.
proof fn lemma_held_back(evs: Seq<UpstreamView>)
    ensures
        !BufferView::empty().after_all(evs, true).streamed,
    decreases evs.len(),
{
    if evs.len() > 0 {
        lemma_held_back(evs.drop_last());
    }
}

/// A client that offers tools gets, with its answer, every tool call that was found in it: with the
/// usual names for the arguments, without repeats, in order. Beside them it gets the text without
/// the calls, or the text as it is where that leaves nothing and no call was found. The end says
/// whether there are calls.
pub proof fn lemma_client_gets_every_call(
    evs: Seq<UpstreamView>,
    found: Seq<ToolCallView>,
    cleaned: Seq<char>,
    prompt_tokens: int,
)
    ensures
        ({
            let b = BufferView::empty().after_all(evs, true);
            let calls = resolved_calls(b.answer, true, found);
            let d = b.delivered(true, cleaned, calls, false, prompt_tokens);
            let whole = CollectedView::empty().plus_all(
                BufferView::empty().events_at_all(evs, true) + closed(d),
            );
            &&& b.answer.len() > 0 ==> exists|places: Seq<int>| #[trigger]
                kept_of(whole.tool_calls, found, places)
            &&& b.answer.len() == 0 ==> whole.tool_calls.len() == 0
            &&& whole.tool_calls.len() > 0 ==> whole.finish_reason == "tool_calls"@
            &&& whole.tool_calls.len() == 0 ==> whole.finish_reason == "stop"@
            &&& one_try(evs) ==> b.answer == answer_of(evs)
            &&& one_try(evs) ==> whole.content == if trimmed(cleaned).len() > 0 {
                trimmed(cleaned)
            } else if whole.tool_calls.len() == 0 && trimmed(answer_of(evs)).len() > 0 {
                answer_of(evs)
            } else {
                Seq::empty()
            }
        }),
{
    let start = CollectedView::empty();
    let b = BufferView::empty().after_all(evs, true);
    let calls = resolved_calls(b.answer, true, found);
    let d = b.delivered(true, cleaned, calls, false, prompt_tokens);
    let first = BufferView::empty().events_at_all(evs, true);
    let mid = start.plus_all(first);
    let end = closed(d);
    let whole = start.plus_all(first + end);
    lemma_kept(found);
    lemma_held_back(evs);
    lemma_no_calls_before_end(evs, true);
    lemma_plus_all_concat(start, first, end);
    if one_try(evs) {
        lemma_client_gets_answer(evs, true);
        lemma_buffer_holds_answer(evs, true);
        assert(Seq::<char>::empty() + trimmed(cleaned) =~= trimmed(cleaned));
        assert(Seq::<char>::empty() + answer_of(evs) =~= answer_of(evs));
    }
    reveal_with_fuel(CollectedView::plus_all, 4);
    assert(end.drop_last() =~= d.events);
    if d.events.len() == 2 {
        assert(d.events.drop_last().drop_last().len() == 0);
    } else if d.events.len() == 1 {
        assert(d.events.drop_last().len() == 0);
    }
    assert(whole.tool_calls == calls);
}

/// The account that is named at the end is the one of the last try that the upstream has named.
pub proof fn lemma_last_account_is_named(evs: Seq<UpstreamView>, has_tools: bool, i: int)
    requires
        0 <= i < evs.len(),
        evs[i] is Meta,
        forall|j: int| i < j < evs.len() ==> !(#[trigger] evs[j] is Meta),
    ensures
        BufferView::empty().after_all(evs, has_tools).email == Some(evs[i]->email),
    decreases evs.len(),
{
    let shorter = evs.drop_last();
    let n = evs.len() - 1;
    if i < n {
        assert(!(evs[n] is Meta));
        assert(shorter[i] == evs[i]);
        assert forall|j: int| i < j < shorter.len() implies !(#[trigger] shorter[j] is Meta) by {
            assert(shorter[j] == evs[j]);
        }
        lemma_last_account_is_named(shorter, has_tools, i);
    }
}

/// What an increment does to the buffer. One of the thinking adds its characters to those that are
/// skipped, any other adds them to the answer, and to what the client has seen unless tools are
/// offered. A cumulative reasoning replaces what has been shown, any other is added to it. Its
/// phase is counted.
pub proof fn lemma_increment_effect(b: BufferView, d: DeltaView, has_tools: bool)
    requires
        b.has_room(d),
    ensures
        ({
            let c = b.after_event(UpstreamView::Delta(d), has_tools);
            let thinking = d.phase == "think"@ || d.phase == "thinking_summary"@;
            &&& thinking ==> c.answer == b.answer && c.skipped_chars == b.skipped_chars
                + d.content.len() && c.streamed == b.streamed
            &&& !thinking ==> c.answer == b.answer + d.content && c.skipped_chars
                == b.skipped_chars && (c.streamed <==> b.streamed || (d.content.len() > 0
                && !has_tools))
            &&& d.reasoning_cumulative matches Some(full) ==> c.shown == full
            &&& d.reasoning_cumulative is None ==> c.shown == b.shown + d.reasoning_incremental
            &&& c.email == b.email
            &&& c.phases.contains_key(d.phase)
            &&& b.phases.contains_key(d.phase) ==> c.phases[d.phase] == b.phases[d.phase] + 1
            &&& !b.phases.contains_key(d.phase) ==> c.phases[d.phase] == 1
            &&& forall|p: Seq<char>|
                p != d.phase ==> #[trigger] c.phases.contains_key(p) == b.phases.contains_key(p)
                    && (b.phases.contains_key(p) ==> c.phases[p] == b.phases[p])
            &&& !thinking && d.content.len() > 0 ==> c.first_token
            &&& d.reasoning_cumulative is None && d.reasoning_incremental.len() > 0
                ==> c.first_token
            &&& d.reasoning_cumulative matches Some(full) ==> (full != b.shown && full.len() > 0
                ==> c.first_token)
            &&& b.first_token ==> c.first_token
            &&& (thinking || d.content.len() == 0) && d.reasoning_cumulative is None
                && d.reasoning_incremental.len() == 0 ==> c.first_token == b.first_token
            &&& (thinking || d.content.len() == 0) && d.reasoning_cumulative == Some(b.shown)
                ==> c.first_token == b.first_token
        }),
{
    let c = b.after_event(UpstreamView::Delta(d), has_tools);
    if let Some(full) = d.reasoning_cumulative {
        if full != b.shown && b.shown.is_prefix_of(full) {
            if full.len() == b.shown.len() {
                assert(full.take(b.shown.len() as int) =~= full);
            }
        }
    }
    assert forall|p: Seq<char>| p != d.phase implies #[trigger] c.phases.contains_key(p)
        == b.phases.contains_key(p) && (b.phases.contains_key(p) ==> c.phases[p] == b.phases[p]) by {}
}

/// What the client gets of an increment: first the reasoning that goes beyond what has been shown,
/// then the content, unless it belongs to the thinking or tools are offered.
pub proof fn lemma_increment_is_shown(b: BufferView, d: DeltaView, has_tools: bool)
    ensures
        ({
            let evs = b.events_at(UpstreamView::Delta(d), has_tools);
            let thinking = d.phase == "think"@ || d.phase == "thinking_summary"@;
            let content = d.content.len() > 0 && !thinking && !has_tools;
            let reasoning = match d.reasoning_cumulative {
                Some(full) => if b.shown.is_prefix_of(full) {
                    full.skip(b.shown.len() as int)
                } else {
                    full
                },
                None => d.reasoning_incremental,
            };
            &&& reasoning.len() > 0 && content ==> evs == seq![
                OutEventView::ReasoningDelta(reasoning),
                OutEventView::ContentDelta(d.content),
            ]
            &&& reasoning.len() > 0 && !content ==> evs == seq![
                OutEventView::ReasoningDelta(reasoning),
            ]
            &&& reasoning.len() == 0 && content ==> evs == seq![
                OutEventView::ContentDelta(d.content),
            ]
            &&& reasoning.len() == 0 && !content ==> evs.len() == 0
        }),
{
    let evs = b.events_at(UpstreamView::Delta(d), has_tools);
    let reasoning = b.new_reasoning(d);
    if reasoning.len() > 0 && b.adds_content(d) && !has_tools {
        assert(evs =~= seq![
            OutEventView::ReasoningDelta(reasoning),
            OutEventView::ContentDelta(d.content),
        ]);
    } else if b.adds_content(d) && !has_tools {
        assert(evs =~= seq![OutEventView::ContentDelta(d.content)]);
    }
}

/// What the other events do: the name of the account is noted, another try begins with an empty
/// buffer on the account that was named last, and the end changes nothing. The client hears of an
/// error only.
pub proof fn lemma_other_events_effect(
    b: BufferView,
    chat_id: Seq<char>,
    email: Seq<char>,
    e: Seq<char>,
    has_tools: bool,
)
    ensures
        b.after_event(UpstreamView::Meta { chat_id, email }, has_tools) == (BufferView {
            email: Some(email),
            ..b
        }),
        b.after_event(UpstreamView::Done, has_tools) == b,
        b.after_event(UpstreamView::Error(e), has_tools) == b,
        ({
            let c = b.after_event(UpstreamView::Retrying, has_tools);
            &&& c.answer.len() == 0
            &&& c.shown.len() == 0
            &&& !c.streamed
            &&& c.out_tokens == 0
            &&& c.reasoning_tokens == 0
            &&& c.skipped_chars == 0
            &&& !c.first_token
            &&& c.phases.dom() == Set::<Seq<char>>::empty()
            &&& c.email == b.email
        }),
        b.events_at(UpstreamView::Meta { chat_id, email }, has_tools).len() == 0,
        b.events_at(UpstreamView::Done, has_tools).len() == 0,
        b.events_at(UpstreamView::Retrying, has_tools).len() == 0,
        b.events_at(UpstreamView::Error(e), has_tools) == seq![OutEventView::Error(e)],
        next_after(UpstreamView::Meta { chat_id, email }) == Next::More,
        next_after(UpstreamView::Retrying) == Next::More,
        next_after(UpstreamView::Done) == Next::Finish,
        next_after(UpstreamView::Error(e)) == Next::Stop,
        forall|d: DeltaView| #[trigger] next_after(UpstreamView::Delta(d)) == Next::More,
{
    assert(b.after_event(UpstreamView::Retrying, has_tools).phases.dom() =~= Set::empty());
}

/// What is recorded while a request runs: the time of the first token, once, and the error that
/// ended it.
pub proof fn lemma_probe_effect(p: ProbeView, ev: UpstreamView, first: bool, elapsed_ms: i64)
    ensures
        ({
            let q = p.after_event(ev, first, elapsed_ms);
            &&& q.meta == p.meta
            &&& q.start_ms == p.start_ms
            &&& q.usage == p.usage
            &&& ev is Delta && first && p.ttft_ms is None ==> q.ttft_ms == Some(elapsed_ms)
            &&& !(ev is Delta && first) || p.ttft_ms is Some ==> q.ttft_ms == p.ttft_ms
            &&& ev matches UpstreamView::Error(e) ==> q.error == Some(e) && !q.success
            &&& !(ev is Error) ==> q.error == p.error && q.success == p.success
        }),
{
}

/// The record says of a request what was found out of it: each count and each name in its place.
pub proof fn lemma_record(r: RequestRecord, p: ProbeView, duration_ms: i64)
    requires
        r.tells(p, duration_ms),
    ensures
        r.ts_ms == p.start_ms,
        r.duration_ms == duration_ms,
        r.ttft_ms == p.ttft_ms,
        r.success == p.success,
        opt_view(r.error) == p.error,
        r.surface@ == p.meta.surface,
        r.model@ == p.meta.model,
        r.resolved_model@ == p.meta.resolved_model,
        r.chat_type@ == p.meta.chat_type,
        r.stream == p.meta.stream,
        opt_view(r.caller) == p.meta.caller,
        p.usage == (Usage {
            prompt_tokens: r.prompt_tokens,
            completion_tokens: r.completion_tokens,
            total_tokens: r.total_tokens,
            reasoning_tokens: r.reasoning_tokens,
        }),
{
}

/// What a client has collected: the contents and the reasonings one after the other, the last list
/// of calls, the last error, and what the closing event says.
pub proof fn lemma_collected(
    c: CollectedView,
    text: Seq<char>,
    calls: Seq<ToolCallView>,
    usage: Usage,
    finish_reason: Seq<char>,
    email: Option<Seq<char>>,
)
    ensures
        c.plus(OutEventView::ContentDelta(text)) == (CollectedView {
            content: c.content + text,
            ..c
        }),
        c.plus(OutEventView::ReasoningDelta(text)) == (CollectedView {
            reasoning: c.reasoning + text,
            ..c
        }),
        c.plus(OutEventView::ToolCalls(calls)) == (CollectedView { tool_calls: calls, ..c }),
        c.plus(OutEventView::Error(text)) == (CollectedView { error: Some(text), ..c }),
        c.plus(OutEventView::Done { usage, finish_reason, email }) == (CollectedView {
            usage,
            finish_reason,
            email,
            ..c
        }),
{
}

/// The client has seen nothing exactly if none of the answer has gone out and the end brings
/// neither text nor calls. A few visible characters beside no call, where tools are offered, are
/// suspicious: fewer than thirty.
pub proof fn lemma_nothing_seen(
    b: BufferView,
    has_tools: bool,
    cleaned: Seq<char>,
    calls: Seq<ToolCallView>,
    prompt_tokens: int,
)
    ensures
        ({
            let d = b.delivered(has_tools, cleaned, calls, false, prompt_tokens);
            &&& d.client_saw_nothing <==> !b.streamed && d.events.len() == 0
            &&& d.suspicious_short <==> has_tools && calls.len() == 0 && 1 <= cleaned.len() <= 29
                && (b.streamed || d.events.len() > 0)
            &&& d.email == b.email
        }),
{
}

/// An upstream event that comes in is buffered, shown and recorded, and the first token is timed
/// when it comes.
pub proof fn lemma_on_event_call(
    run: &mut Completion,
    ev: UpstreamEvent,
    elapsed_ms: i64,
    r: (Vec<OutEvent>, Next),
)
    requires
        call_ensures(Completion::on_event, (run, ev, elapsed_ms), r),
    ensures
        ({
            let (b, c) = (old(run).buffer@, final(run).buffer@);
            &&& final(run).has_tools == old(run).has_tools
            &&& final(run).prompt@ == old(run).prompt@
            &&& c == b.after_event(ev@, old(run).has_tools)
            &&& final(run).probe@ == old(run).probe@.after_event(
                ev@,
                c.first_token && !b.first_token,
                elapsed_ms,
            )
            &&& event_views(r.0@) == b.events_at(ev@, old(run).has_tools)
            &&& r.1 == next_after(ev@)
        }),
{
}

/// A complete answer is finished with what was found in it. The request then counts as served, and
/// its usage is the one that the client gets; where the end cannot be made, nothing is recorded.
pub proof fn lemma_finish_call(
    run: &mut Completion,
    found: Vec<ParsedToolCall>,
    cleaned: &str,
    r: Option<Finish>,
)
    requires
        call_ensures(Completion::finish, (run, found, cleaned), r),
    ensures
        ({
            let b = old(run).buffer@;
            let has_tools = old(run).has_tools;
            let tokens = cl100k_tokens(old(run).prompt@).len() as int;
            let calls = resolved_calls(b.answer, has_tools, call_views(found@));
            let d = b.delivered(has_tools, cleaned@, calls, false, tokens);
            let possible = tokenizable(old(run).prompt@) && b.usage_fits(
                has_tools,
                cleaned@,
                tokens,
            );
            let (p, q) = (old(run).probe@, final(run).probe@);
            &&& final(run).buffer@ == b
            &&& r is Some <==> possible
            &&& r matches Some(f) ==> event_views(f.events@) == closed(d) && f.client_saw_nothing
                == d.client_saw_nothing && f.suspicious_short == d.suspicious_short
            &&& possible ==> q.success && q.usage == CollectedView::empty().plus_all(
                closed(d),
            ).usage && q == (ProbeView { success: true, usage: q.usage, ..p })
            &&& !possible ==> q == p
        }),
{
    let b = old(run).buffer@;
    let tokens = cl100k_tokens(old(run).prompt@).len() as int;
    let calls = resolved_calls(b.answer, old(run).has_tools, call_views(found@));
    let d = b.delivered(old(run).has_tools, cleaned@, calls, false, tokens);
    assert(closed(d).last() == OutEventView::Done {
        usage: d.usage,
        finish_reason: d.finish_reason,
        email: d.email,
    });
}

/// The calls that hold a dangerous path are named in the record, in order.
pub proof fn lemma_polluted_names(calls: Seq<ToolCallView>)
    ensures
        polluted_names(calls) == calls.filter(|c: ToolCallView| polluted(c.arguments)).map_values(
            |c: ToolCallView| c.name,
        ),
    decreases calls.len(),
{
    reveal(Seq::filter);
    let bad = |c: ToolCallView| polluted(c.arguments);
    let name = |c: ToolCallView| c.name;
    if calls.len() > 0 {
        lemma_polluted_names(calls.drop_last());
        let before = calls.drop_last().filter(bad);
        if bad(calls.last()) {
            assert(before.push(calls.last()).map_values(name) =~= before.map_values(name).push(
                name(calls.last()),
            ));
        }
    } else {
        assert(calls.filter(bad).map_values(name) =~= Seq::empty());
    }
}

/// What is kept of the tool calls that were found is found by their names and arguments, where the
/// client offers tools and the answer is not empty; otherwise nothing is.
pub proof fn lemma_resolve_tools_call(
    answer: &str,
    has_tools: bool,
    found: Vec<ParsedToolCall>,
    r: ToolResolution,
)
    requires
        call_ensures(stage6_resolve_tools, (answer, has_tools, found), r),
    ensures
        has_tools && answer@.len() > 0 ==> exists|places: Seq<int>| #[trigger]
            kept_of(call_views(r.tool_calls@), call_views(found@), places),
        !has_tools || answer@.len() == 0 ==> r.tool_calls@.len() == 0,
        r.polluted_tools@.map_values(|s: String| s@) == call_views(r.tool_calls@).filter(
            |c: ToolCallView| polluted(c.arguments),
        ).map_values(|c: ToolCallView| c.name),
{
    lemma_kept(call_views(found@));
    lemma_polluted_names(call_views(r.tool_calls@));
    assert(call_views(r.tool_calls@).len() == r.tool_calls@.len());
}

/// A buffer notes a positive count in place of the one that it has, and leaves everything else as
/// it is.
pub proof fn lemma_note_usage_call(buffer: &mut ContentBuffer, output: i64, reasoning: i64)
    requires
        call_ensures(ContentBuffer::note_usage, (buffer, output, reasoning), ()),
    ensures
        output > 0 ==> final(buffer)@.out_tokens == output,
        output <= 0 ==> final(buffer)@.out_tokens == old(buffer)@.out_tokens,
        reasoning > 0 ==> final(buffer)@.reasoning_tokens == reasoning,
        reasoning <= 0 ==> final(buffer)@.reasoning_tokens == old(buffer)@.reasoning_tokens,
        final(buffer)@ == (BufferView {
            out_tokens: final(buffer)@.out_tokens,
            reasoning_tokens: final(buffer)@.reasoning_tokens,
            ..old(buffer)@
        }),
{
}

/// The counts that an increment reports are the integers under their names.
pub proof fn lemma_parse_usage_call(v: &Json, r: (i64, i64))
    requires
        call_ensures(parse_upstream_usage, (v,), r),
    ensures
        ({
            let ev = UpstreamView::Delta(
                DeltaView {
                    phase: Seq::empty(),
                    content: Seq::empty(),
                    reasoning_cumulative: None,
                    reasoning_incremental: Seq::empty(),
                    usage: Some(v@),
                },
            );
            r.0 == reported(ev, "output_tokens"@) && r.1 == reported_reasoning(ev)
        }),
{
}

/// The whole answer is what a client collects of its events, one after the other.
pub proof fn lemma_collect_call(events: Vec<OutEvent>, r: CollectedResult)
    requires
        call_ensures(collect_completion, (events,), r),
    ensures
        r@ == CollectedView::empty().plus_all(event_views(events@)),
        events@.len() == 0 ==> r@.content.len() == 0 && r@.reasoning.len() == 0
            && r@.tool_calls.len() == 0 && r@.error is None && r@.email is None
            && r@.finish_reason == "stop"@ && r@.usage == (Usage {
            prompt_tokens: 0,
            completion_tokens: 0,
            total_tokens: 0,
            reasoning_tokens: 0,
        }),
{
    assert(event_views(events@).len() == events@.len());
}

/// The first token is timed once.
pub proof fn lemma_mark_first_token_call(probe: &mut StatsProbe, elapsed_ms: i64)
    requires
        call_ensures(StatsProbe::mark_first_token, (probe, elapsed_ms), ()),
    ensures
        old(probe)@.ttft_ms is None ==> final(probe)@.ttft_ms == Some(elapsed_ms),
        old(probe)@.ttft_ms is Some ==> final(probe)@ == old(probe)@,
        final(probe)@ == (ProbeView { ttft_ms: final(probe)@.ttft_ms, ..old(probe)@ }),
{
}

/// Ending an answer: there is an end exactly where the tokenizer takes the prompt and the counts
/// fit, and it is the one of what the buffer holds and of the calls that were kept.
pub proof fn lemma_deliver_call(
    buffer: &ContentBuffer,
    resolution: &ToolResolution,
    has_tools: bool,
    cleaned: &str,
    prompt: &str,
    r: Option<Delivery>,
)
    requires
        call_ensures(stage7_deliver, (buffer, resolution, has_tools, cleaned, prompt), r),
    ensures
        ({
            let tokens = cl100k_tokens(prompt@).len() as int;
            &&& r is Some <==> tokenizable(prompt@) && buffer@.usage_fits(
                has_tools,
                cleaned@,
                tokens,
            )
            &&& r matches Some(d) ==> d@ == buffer@.delivered(
                has_tools,
                cleaned@,
                call_views(resolution.tool_calls@),
                resolution.yielded_content_at_end,
                tokens,
            )
        }),
{
}

/// A buffer starts empty, and takes an increment in as told above.
pub proof fn lemma_buffer_calls(
    made: ContentBuffer,
    buffer: &mut ContentBuffer,
    d: &QwenDelta,
    has_tools: bool,
    r: (Vec<OutEvent>, bool),
)
    requires
        call_ensures(ContentBuffer::new, (), made),
        call_ensures(ContentBuffer::process_delta, (buffer, d, has_tools), r),
        d@.usage is None,
    ensures
        made@ == BufferView::empty(),
        final(buffer)@ == old(buffer)@.after_event(UpstreamView::Delta(d@), has_tools),
        event_views(r.0@) == old(buffer)@.events_at(UpstreamView::Delta(d@), has_tools),
        r.1 <==> final(buffer)@.first_token && !old(buffer)@.first_token,
{
}

/// At another try a buffer is empty again but for the account.
pub proof fn lemma_reset_call(buffer: &mut ContentBuffer, has_tools: bool)
    requires
        call_ensures(ContentBuffer::reset, (buffer,), ()),
    ensures
        final(buffer)@ == old(buffer)@.after_event(UpstreamView::Retrying, has_tools),
        final(buffer)@ == (BufferView { email: old(buffer)@.email, ..BufferView::empty() }),
{
}

/// The reasoning that is new is what goes beyond what has been shown.
pub proof fn lemma_reasoning_call(
    tracker: &mut ReasoningTracker,
    cumulative: &Option<String>,
    incremental: &str,
    r: String,
)
    requires
        call_ensures(ReasoningTracker::delta, (tracker, cumulative, incremental), r),
    ensures
        *cumulative matches Some(full) ==> final(tracker).emitted@ == full@ && (
        if old(tracker).emitted@.is_prefix_of(full@) {
            old(tracker).emitted@ + r@ == full@
        } else {
            r@ == full@
        }),
        *cumulative is None ==> final(tracker).emitted@ == old(tracker).emitted@ + incremental@
            && r@ == incremental@,
{
    if let Some(full) = *cumulative {
        let shown = old(tracker).emitted@;
        if shown.is_prefix_of(full@) {
            assert(shown + full@.skip(shown.len() as int) =~= full@);
        }
    }
}

/// The record that a probe gives tells what the probe has found out.
pub proof fn lemma_record_call(probe: &StatsProbe, duration_ms: i64, r: RequestRecord)
    requires
        call_ensures(StatsProbe::record, (probe, duration_ms), r),
    ensures
        r.tells(probe@, duration_ms),
        r.ts_ms == probe.start_ms,
        r.duration_ms == duration_ms,
        r.success == probe.success,
        r.prompt_tokens == probe.usage.prompt_tokens,
        r.completion_tokens == probe.usage.completion_tokens,
        r.total_tokens == probe.usage.total_tokens,
        r.reasoning_tokens == probe.usage.reasoning_tokens,
        r.ttft_ms == probe.ttft_ms,
{
}

/// The counts fit exactly where the tokens of the prompt and those of the answer, together, fit a
/// signed machine word; an increment has room where each of its counts does.
pub proof fn lemma_counts_fit(
    b: BufferView,
    d: DeltaView,
    has_tools: bool,
    cleaned: Seq<char>,
    prompt_tokens: int,
)
    requires
        prompt_tokens >= 0,
    ensures
        ({
            let n: int = if b.out_tokens > 0 {
                b.out_tokens as int
            } else if has_tools {
                cleaned.len() as int
            } else {
                b.answer.len() as int
            };
            b.usage_fits(has_tools, cleaned, prompt_tokens) <==> prompt_tokens + n <= i64::MAX
        }),
        b.has_room(d) <==> (b.phases.contains_key(d.phase) ==> b.phases[d.phase] < usize::MAX)
            && b.skipped_chars + d.content.len() <= usize::MAX,
{
}

/// A request that says nothing is a text for any account, in a new chat or one created in advance,
/// which is deleted afterwards; it is tried as often as the executor allows.
pub proof fn lemma_default_params(r: StreamParams, max_retries: u32)
    requires
        call_ensures(<StreamParams as Default>::default, (), r),
    ensures
        r@.chat_type == "t2t"@,
        r@.fixed_account is None,
        r@.existing_chat_id is None,
        r@.delete_on_close,
        r@.use_prewarmed,
        r@.max_retries is None,
        r@.exclude == Set::<Seq<char>>::empty(),
        r@.content.len() == 0,
        r@.model.len() == 0,
        r@.files.len() == 0,
        !r@.has_custom_tools,
        !r@.enable_search,
        r@.thinking_enabled is None,
        r@.image_options is None,
        RunView::start(r@, max_retries).attempts == max_retries,
{
}

} // verus!
