//! Resolving tool calls and delivering the rest of the answer.

use vstd::prelude::*;
use vstd::string::*;

use super::buffer::{BufferView, ContentBuffer};
use crate::events::{
    call_views, copy_calls, event_views, OutEvent, OutEventView, ParsedToolCall, ToolCallView,
};
use crate::text::{opt_view, trim, trimmed};
use crate::tokens::{cl100k_tokens, count_tokens, is_tokenizable, tokenizable, Usage};
use crate::toolcalls::{
    coerce_argument_aliases, coerced, dedup_tool_calls, deduped, has_path_pollution, polluted,
};

verus! {

impl ToolCallView {
    /// The call with the usual names for its arguments.
    pub open spec fn coerced(self) -> ToolCallView {
        ToolCallView { arguments: coerced(self.arguments), ..self }
    }
}

/// What has been found of tool calls in an answer.
pub struct ToolResolution {
    pub tool_calls: Vec<ParsedToolCall>,
    pub yielded_content_at_end: bool,
    pub suspicious: bool,
    /// The names of the calls that hold a dangerous path, for the record.
    pub polluted_tools: Vec<String>,
}

/// The tool calls that are kept of those that were found.
pub open spec fn resolved_calls(
    answer: Seq<char>,
    has_tools: bool,
    found: Seq<ToolCallView>,
) -> Seq<ToolCallView> {
    if has_tools && answer.len() > 0 {
        deduped(found.map_values(|c: ToolCallView| c.coerced()))
    } else {
        Seq::empty()
    }
}

/// Hardens the tool calls that were found in an answer: arguments get their usual names, and
/// repeated calls are dropped.
pub fn stage6_resolve_tools(
    answer_buf: &str,
    has_tools: bool,
    found: Vec<ParsedToolCall>,
) -> (r: ToolResolution)
    ensures
        call_views(r.tool_calls@) == resolved_calls(answer_buf@, has_tools, call_views(found@)),
        !r.yielded_content_at_end,
        !r.suspicious,
        r.polluted_tools@.map_values(|s: String| s@) == polluted_names(
            resolved_calls(answer_buf@, has_tools, call_views(found@)),
        ),
{
    let mut tool_calls: Vec<ParsedToolCall> = Vec::new();
    assert(call_views(tool_calls@) =~= Seq::empty());
    if has_tools && !answer_buf.is_empty() {
        let ghost list = found@;
        let ghost all = call_views(found@);
        let ghost goal = all.map_values(|c: ToolCallView| c.coerced());
        let mut named: Vec<ParsedToolCall> = Vec::new();
        assert(call_views(named@) =~= goal.take(0));
        for tc in it: found
            invariant
                it.seq() == list,
                all == call_views(list),
                goal == all.map_values(|c: ToolCallView| c.coerced()),
                call_views(named@) == goal.take(it.index() as int),
        {
            let ghost i = it.index() as int;
            let ghost n0 = named@;
            assert(all[i] == tc@);
            let mut call = tc;
            coerce_argument_aliases(&mut call.arguments);
            assert(call@ == goal[i]);
            named.push(call);
            assert(call_views(named@) =~= call_views(n0).push(goal[i]));
            assert(goal.take(i + 1) =~= goal.take(i).push(goal[i]));
        }
        assert(goal.take(goal.len() as int) =~= goal);
        tool_calls = dedup_tool_calls(named);
    }
    let polluted_tools = polluted_tools(&tool_calls);
    ToolResolution { tool_calls, yielded_content_at_end: false, suspicious: false, polluted_tools }
}

/// The names of the tool calls that hold a dangerous path, in order.
pub open spec fn polluted_names(calls: Seq<ToolCallView>) -> Seq<Seq<char>>
    decreases calls.len(),
{
    if calls.len() == 0 {
        Seq::empty()
    } else {
        let before = polluted_names(calls.drop_last());
        if polluted(calls.last().arguments) {
            before.push(calls.last().name)
        } else {
            before
        }
    }
}

/// The names of the tool calls that hold a dangerous path, for the record.
fn polluted_tools(calls: &Vec<ParsedToolCall>) -> (r: Vec<String>)
    ensures
        r@.map_values(|s: String| s@) == polluted_names(call_views(calls@)),
{
    let ghost all = call_views(calls@);
    let mut out: Vec<String> = Vec::new();
    let mut i: usize = 0;
    assert(all.take(0) =~= Seq::empty());
    assert(out@.map_values(|s: String| s@) =~= Seq::empty());
    while i < calls.len()
        invariant
            i <= calls@.len(),
            all == call_views(calls@),
            out@.map_values(|s: String| s@) == polluted_names(all.take(i as int)),
        decreases calls@.len() - i,
    {
        let ghost o0 = out@;
        assert(all.take(i + 1).drop_last() =~= all.take(i as int));
        assert(all.take(i + 1).last() == calls@[i as int]@);
        if has_path_pollution(&calls[i].arguments) {
            out.push(calls[i].name.clone());
            assert(out@.map_values(|s: String| s@) =~= o0.map_values(|s: String| s@).push(
                calls@[i as int].name@,
            ));
        }
        i = i + 1;
    }
    assert(all.take(i as int) =~= all);
    out
}

/// The end of an answer.
pub struct Delivery {
    /// What the client still gets, but for the closing event.
    pub events: Vec<OutEvent>,
    pub usage: Usage,
    pub finish_reason: String,
    pub email: Option<String>,
    /// The client has got nothing at all.
    pub client_saw_nothing: bool,
    /// The client has got suspiciously little.
    pub suspicious_short: bool,
}

/// An answer with fewer visible characters is suspiciously short.
pub const SHORT_ANSWER: usize = 30;

/// The end of an answer, as a mathematical value.
#[verifier::ext_equal]
pub struct DeliveryView {
    pub events: Seq<OutEventView>,
    pub usage: Usage,
    pub finish_reason: Seq<char>,
    pub email: Option<Seq<char>>,
    pub client_saw_nothing: bool,
    pub suspicious_short: bool,
}

impl View for Delivery {
    type V = DeliveryView;

    open spec fn view(&self) -> DeliveryView {
        DeliveryView {
            events: event_views(self.events@),
            usage: self.usage,
            finish_reason: self.finish_reason@,
            email: opt_view(self.email),
            client_saw_nothing: self.client_saw_nothing,
            suspicious_short: self.suspicious_short,
        }
    }
}

impl BufferView {
    /// The answer was held back because tool calls may be hidden in it.
    pub open spec fn held_back(self, has_tools: bool) -> bool {
        has_tools && !self.streamed
    }

    /// The held text without the tool calls goes to the client.
    pub open spec fn yields_cleaned(self, has_tools: bool, cleaned: Seq<char>) -> bool {
        self.held_back(has_tools) && trimmed(cleaned).len() > 0
    }

    /// Nothing is left of a held text without the tool calls, and no tool call was found: the
    /// text goes to the client as it is.
    pub open spec fn fails_open(
        self,
        has_tools: bool,
        cleaned: Seq<char>,
        calls: Seq<ToolCallView>,
        yielded: bool,
    ) -> bool {
        self.held_back(has_tools) && !self.yields_cleaned(has_tools, cleaned) && !yielded
            && calls.len() == 0 && trimmed(self.answer).len() > 0
    }

    /// What the client still gets.
    pub open spec fn last_events(
        self,
        has_tools: bool,
        cleaned: Seq<char>,
        calls: Seq<ToolCallView>,
        yielded: bool,
    ) -> Seq<OutEventView> {
        let text = if self.yields_cleaned(has_tools, cleaned) {
            seq![OutEventView::ContentDelta(trimmed(cleaned))]
        } else {
            Seq::empty()
        };
        let tools = if calls.len() > 0 {
            text.push(OutEventView::ToolCalls(calls))
        } else {
            text
        };
        if self.fails_open(has_tools, cleaned, calls, yielded) {
            tools.push(OutEventView::ContentDelta(self.answer))
        } else {
            tools
        }
    }

    /// The tokens of the answer: what the upstream has reported, else the visible characters.
    pub open spec fn completion_tokens(self, has_tools: bool, cleaned: Seq<char>) -> int {
        if self.out_tokens > 0 {
            self.out_tokens as int
        } else if has_tools {
            cleaned.len() as int
        } else {
            self.answer.len() as int
        }
    }

    /// The counts fit.
    pub open spec fn usage_fits(self, has_tools: bool, cleaned: Seq<char>, prompt_tokens: int) -> bool {
        &&& prompt_tokens <= i64::MAX
        &&& self.completion_tokens(has_tools, cleaned) <= i64::MAX
        &&& prompt_tokens + self.completion_tokens(has_tools, cleaned) <= i64::MAX
    }

    /// The end of the answer.
    pub open spec fn delivered(
        self,
        has_tools: bool,
        cleaned: Seq<char>,
        calls: Seq<ToolCallView>,
        yielded: bool,
        prompt_tokens: int,
    ) -> DeliveryView {
        let completion = self.completion_tokens(has_tools, cleaned);
        let nothing = !self.streamed && !yielded && calls.len() == 0 && !self.yields_cleaned(
            has_tools,
            cleaned,
        ) && !self.fails_open(has_tools, cleaned, calls, yielded);
        DeliveryView {
            events: self.last_events(has_tools, cleaned, calls, yielded),
            usage: Usage {
                prompt_tokens: prompt_tokens as i64,
                completion_tokens: completion as i64,
                total_tokens: (prompt_tokens + completion) as i64,
                reasoning_tokens: self.reasoning_tokens,
            },
            finish_reason: if calls.len() > 0 {
                "tool_calls"@
            } else {
                "stop"@
            },
            email: self.email,
            client_saw_nothing: nothing,
            suspicious_short: has_tools && !nothing && calls.len() == 0 && 0 < cleaned.len()
                < SHORT_ANSWER,
        }
    }
}

/// Ends an answer: `cleaned` is the buffered text without its tool calls, `prompt_tokens` the
/// size of the prompt.
pub fn deliver(
    buffer: &ContentBuffer,
    resolution: &ToolResolution,
    has_tools: bool,
    cleaned: &str,
    prompt_tokens: i64,
) -> (r: Delivery)
    requires
        0 <= prompt_tokens,
        buffer@.usage_fits(has_tools, cleaned@, prompt_tokens as int),
    ensures
        r@ == buffer@.delivered(
            has_tools,
            cleaned@,
            call_views(resolution.tool_calls@),
            resolution.yielded_content_at_end,
            prompt_tokens as int,
        ),
{
    let ghost calls = call_views(resolution.tool_calls@);
    let mut events: Vec<OutEvent> = Vec::new();
    let mut yielded = resolution.yielded_content_at_end;
    let no_calls = resolution.tool_calls.len() == 0;
    assert(event_views(events@) =~= Seq::empty());
    if has_tools && !buffer.streamed_content {
        let text = trim(cleaned);
        if !text.is_empty() {
            events.push(OutEvent::ContentDelta(String::from_str(text)));
            yielded = true;
            assert(event_views(events@) =~= seq![OutEventView::ContentDelta(trimmed(cleaned@))]);
        }
    }
    let ghost e1 = events@;
    if !no_calls {
        events.push(OutEvent::ToolCalls(copy_calls(&resolution.tool_calls)));
        assert(event_views(events@) =~= event_views(e1).push(OutEventView::ToolCalls(calls)));
    }
    let ghost e2 = events@;
    if has_tools && !buffer.streamed_content && !yielded && no_calls && !trim(
        buffer.answer_buf.as_str(),
    ).is_empty() {
        events.push(OutEvent::ContentDelta(buffer.answer_buf.clone()));
        yielded = true;
        assert(event_views(events@) =~= event_views(e2).push(
            OutEventView::ContentDelta(buffer.answer_buf@),
        ));
    }
    let cleaned_chars: usize = cleaned.unicode_len();
    let client_saw_nothing = !buffer.streamed_content && !yielded && no_calls;
    let suspicious_short = has_tools && !client_saw_nothing && no_calls && cleaned_chars > 0
        && cleaned_chars < SHORT_ANSWER;
    let completion_tokens: i64 = if buffer.last_out_tokens > 0 {
        buffer.last_out_tokens
    } else if has_tools {
        cleaned_chars as i64
    } else {
        buffer.answer_buf.as_str().unicode_len() as i64
    };
    let email = super::request::copy_text(&buffer.last_email);
    Delivery {
        events,
        usage: Usage {
            prompt_tokens,
            completion_tokens,
            total_tokens: prompt_tokens + completion_tokens,
            reasoning_tokens: buffer.last_reasoning_tokens,
        },
        finish_reason: if no_calls {
            String::from_str("stop")
        } else {
            String::from_str("tool_calls")
        },
        email,
        client_saw_nothing,
        suspicious_short,
    }
}

/// Ends an answer. There is no result where the tokenizer cannot take the prompt or the
/// counts do not fit.
pub fn stage7_deliver(
    buffer: &ContentBuffer,
    resolution: &ToolResolution,
    has_tools: bool,
    cleaned: &str,
    prompt: &str,
) -> (r: Option<Delivery>)
    ensures
        match r {
            Some(d) => {
                let tokens = cl100k_tokens(prompt@).len() as int;
                &&& tokenizable(prompt@)
                &&& buffer@.usage_fits(has_tools, cleaned@, tokens)
                &&& d@ == buffer@.delivered(
                    has_tools,
                    cleaned@,
                    call_views(resolution.tool_calls@),
                    resolution.yielded_content_at_end,
                    tokens,
                )
            },
            None => !tokenizable(prompt@) || !buffer@.usage_fits(
                has_tools,
                cleaned@,
                cl100k_tokens(prompt@).len() as int,
            ),
        },
{
    if !is_tokenizable(prompt) {
        return None;
    }
    let tokens: usize = count_tokens(prompt);
    let completion: i128 = if buffer.last_out_tokens > 0 {
        buffer.last_out_tokens as i128
    } else if has_tools {
        cleaned.unicode_len() as i128
    } else {
        buffer.answer_buf.as_str().unicode_len() as i128
    };
    if tokens as i128 + completion > i64::MAX as i128 {
        return None;
    }
    Some(deliver(buffer, resolution, has_tools, cleaned, tokens as i64))
}

} // verus!
