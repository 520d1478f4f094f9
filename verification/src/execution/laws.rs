//! What holds of the run of a request as a whole.

use vstd::prelude::*;
use vstd::string::*;

use super::buffer::BufferView;
use super::completion::{closed, next_after, CollectedView, Next};
use super::delivery::resolved_calls;
use super::probe::{cut_caller, CALLER_CHARS};
use crate::events::{DeltaView, OutEventView, ToolCallView, UpstreamView};
use crate::text::trimmed;

verus! {

impl BufferView {
    /// The buffer after upstream events.
    pub open spec fn after_all(self, evs: Seq<UpstreamView>, has_tools: bool) -> BufferView
        decreases evs.len(),
    {
        if evs.len() == 0 {
            self
        } else {
            self.after_all(evs.drop_last(), has_tools).after_event(evs.last(), has_tools)
        }
    }

    /// What the client gets at upstream events.
    pub open spec fn events_at_all(self, evs: Seq<UpstreamView>, has_tools: bool) -> Seq<
        OutEventView,
    >
        decreases evs.len(),
    {
        if evs.len() == 0 {
            Seq::empty()
        } else {
            self.events_at_all(evs.drop_last(), has_tools) + self.after_all(
                evs.drop_last(),
                has_tools,
            ).events_at(evs.last(), has_tools)
        }
    }

    /// Each cumulative reasoning goes on where the one before ended.
    pub open spec fn reasoning_goes_on(self, evs: Seq<UpstreamView>, has_tools: bool) -> bool
        decreases evs.len(),
    {
        evs.len() == 0 || {
            &&& self.reasoning_goes_on(evs.drop_last(), has_tools)
            &&& evs.last() matches UpstreamView::Delta(d) && d.reasoning_cumulative matches Some(
                full,
            ) ==> self.after_all(evs.drop_last(), has_tools).shown.is_prefix_of(full)
        }
    }
}

/// The upstream does not start again.
pub open spec fn one_try(evs: Seq<UpstreamView>) -> bool {
    forall|i: int| 0 <= i < evs.len() ==> !(#[trigger] evs[i] is Retrying)
}

/// The answer that the increments make up, without the thinking.
pub open spec fn answer_of(evs: Seq<UpstreamView>) -> Seq<char>
    decreases evs.len(),
{
    if evs.len() == 0 {
        Seq::empty()
    } else {
        let before = answer_of(evs.drop_last());
        match evs.last() {
            UpstreamView::Delta(d) => if d.is_thinking() {
                before
            } else {
                before + d.content
            },
            _ => before,
        }
    }
}

proof fn lemma_one_try_shorter(evs: Seq<UpstreamView>)
    requires
        one_try(evs),
        evs.len() > 0,
    ensures
        one_try(evs.drop_last()),
        !(evs.last() is Retrying),
{
    assert(!(evs[evs.len() - 1] is Retrying));
    assert forall|i: int| 0 <= i < evs.drop_last().len() implies !(
    #[trigger] evs.drop_last()[i] is Retrying) by {
        assert(evs.drop_last()[i] == evs[i]);
    }
}

/// The buffer holds the answer: the contents of all increments but those of the thinking.
pub proof fn lemma_buffer_holds_answer(evs: Seq<UpstreamView>, has_tools: bool)
    requires
        one_try(evs),
    ensures
        BufferView::empty().after_all(evs, has_tools).answer == answer_of(evs),
    decreases evs.len(),
{
    if evs.len() > 0 {
        lemma_one_try_shorter(evs);
        lemma_buffer_holds_answer(evs.drop_last(), has_tools);
    }
}

pub proof fn lemma_plus_all_concat(c: CollectedView, a: Seq<OutEventView>, b: Seq<OutEventView>)
    ensures
        c.plus_all(a + b) == c.plus_all(a).plus_all(b),
    decreases b.len(),
{
    if b.len() == 0 {
        assert(a + b =~= a);
    } else {
        assert((a + b).drop_last() =~= a + b.drop_last());
        assert((a + b).last() == b.last());
        lemma_plus_all_concat(c, a, b.drop_last());
    }
}

/// What one increment shows, collected.
proof fn lemma_shown_collected(c: CollectedView, b: BufferView, d: DeltaView, has_tools: bool)
    ensures
        ({
            let r = c.plus_all(b.shown_events(d, has_tools));
            &&& r.reasoning == c.reasoning + b.new_reasoning(d)
            &&& r.content == if b.adds_content(d) && !has_tools {
                c.content + d.content
            } else {
                c.content
            }
            &&& r.tool_calls == c.tool_calls
            &&& r.error == c.error
        }),
{
    reveal_with_fuel(CollectedView::plus_all, 3);
    let e = b.shown_events(d, has_tools);
    assert(c.reasoning + Seq::<char>::empty() =~= c.reasoning);
    if b.new_reasoning(d).len() == 0 {
        assert(b.new_reasoning(d) =~= Seq::empty());
    }
    if e.len() == 2 {
        assert(e.drop_last().drop_last().len() == 0);
    } else if e.len() == 1 {
        assert(e.drop_last().len() == 0);
    }
}

/// Without tools the client gets the answer as it comes: what a client has collected is what
/// the buffer holds. With tools it gets none of it before the end.
pub proof fn lemma_client_gets_answer(evs: Seq<UpstreamView>, has_tools: bool)
    requires
        one_try(evs),
    ensures
        CollectedView::empty().plus_all(
            BufferView::empty().events_at_all(evs, has_tools),
        ).content == if has_tools {
            Seq::empty()
        } else {
            answer_of(evs)
        },
    decreases evs.len(),
{
    let start = CollectedView::empty();
    let b = BufferView::empty();
    if evs.len() > 0 {
        let shorter = evs.drop_last();
        lemma_one_try_shorter(evs);
        lemma_client_gets_answer(shorter, has_tools);
        let before = b.events_at_all(shorter, has_tools);
        let mid = b.after_all(shorter, has_tools);
        let last = mid.events_at(evs.last(), has_tools);
        lemma_plus_all_concat(start, before, last);
        match evs.last() {
            UpstreamView::Delta(d) => {
                lemma_shown_collected(start.plus_all(before), mid, d, has_tools);
                if d.content.len() == 0 {
                    assert(d.content =~= Seq::empty());
                    assert(answer_of(shorter) + d.content =~= answer_of(shorter));
                }
            },
            _ => {
                reveal_with_fuel(CollectedView::plus_all, 2);
                if last.len() == 1 {
                    assert(last.drop_last().len() == 0);
                }
            },
        }
    }
}

/// The reasoning adds up: as long as each cumulative text goes on where the one before ended,
/// what the client has collected is what has been shown, nothing twice and nothing left out.
pub proof fn lemma_reasoning_adds_up(evs: Seq<UpstreamView>, has_tools: bool)
    requires
        one_try(evs),
        BufferView::empty().reasoning_goes_on(evs, has_tools),
    ensures
        CollectedView::empty().plus_all(
            BufferView::empty().events_at_all(evs, has_tools),
        ).reasoning == BufferView::empty().after_all(evs, has_tools).shown,
    decreases evs.len(),
{
    let start = CollectedView::empty();
    let b = BufferView::empty();
    if evs.len() > 0 {
        let shorter = evs.drop_last();
        lemma_one_try_shorter(evs);
        lemma_reasoning_adds_up(shorter, has_tools);
        let before = b.events_at_all(shorter, has_tools);
        let mid = b.after_all(shorter, has_tools);
        let last = mid.events_at(evs.last(), has_tools);
        lemma_plus_all_concat(start, before, last);
        match evs.last() {
            UpstreamView::Delta(d) => {
                lemma_shown_collected(start.plus_all(before), mid, d, has_tools);
                match d.reasoning_cumulative {
                    Some(full) => {
                        assert(mid.shown + full.skip(mid.shown.len() as int) =~= full);
                    },
                    None => {},
                }
            },
            _ => {
                reveal_with_fuel(CollectedView::plus_all, 2);
                if last.len() == 1 {
                    assert(last.drop_last().len() == 0);
                }
            },
        }
    }
}

/// After a retry the run goes on as if it had just begun.
pub proof fn lemma_retry_starts_again(b: BufferView, evs: Seq<UpstreamView>, has_tools: bool)
    requires
        one_try(evs),
    ensures
        b.after_event(UpstreamView::Retrying, has_tools).after_all(evs, has_tools).answer
            == answer_of(evs),
    decreases evs.len(),
{
    if evs.len() > 0 {
        lemma_one_try_shorter(evs);
        lemma_retry_starts_again(b, evs.drop_last(), has_tools);
    }
}

/// Without tools the end brings only the closing event: a whole answer is the same whether it
/// was streamed or collected.
pub proof fn lemma_whole_answer_without_tools(
    evs: Seq<UpstreamView>,
    cleaned: Seq<char>,
    found: Seq<ToolCallView>,
    prompt_tokens: int,
)
    requires
        one_try(evs),
    ensures
        ({
            let b = BufferView::empty().after_all(evs, false);
            let calls = resolved_calls(b.answer, false, found);
            let d = b.delivered(false, cleaned, calls, false, prompt_tokens);
            let all = BufferView::empty().events_at_all(evs, false) + closed(d);
            let whole = CollectedView::empty().plus_all(all);
            &&& whole.content == answer_of(evs)
            &&& whole.tool_calls.len() == 0
            &&& whole.finish_reason == "stop"@
            &&& whole.usage == d.usage
            &&& whole.email == b.email
        }),
{
    let start = CollectedView::empty();
    let b = BufferView::empty().after_all(evs, false);
    let calls = resolved_calls(b.answer, false, found);
    let d = b.delivered(false, cleaned, calls, false, prompt_tokens);
    let first = BufferView::empty().events_at_all(evs, false);
    lemma_client_gets_answer(evs, false);
    lemma_no_calls_before_end(evs, false);
    lemma_plus_all_concat(start, first, closed(d));
    assert(d.events =~= Seq::empty());
    reveal_with_fuel(CollectedView::plus_all, 2);
    assert(closed(d).len() == 1);
    assert(closed(d).drop_last() =~= Seq::empty());
    assert(closed(d).last() == OutEventView::Done {
        usage: d.usage,
        finish_reason: d.finish_reason,
        email: d.email,
    });
}

pub proof fn lemma_no_calls_before_end(evs: Seq<UpstreamView>, has_tools: bool)
    ensures
        CollectedView::empty().plus_all(
            BufferView::empty().events_at_all(evs, has_tools),
        ).tool_calls.len() == 0,
    decreases evs.len(),
{
    let start = CollectedView::empty();
    let b = BufferView::empty();
    if evs.len() > 0 {
        let shorter = evs.drop_last();
        lemma_no_calls_before_end(shorter, has_tools);
        let before = b.events_at_all(shorter, has_tools);
        let mid = b.after_all(shorter, has_tools);
        let last = mid.events_at(evs.last(), has_tools);
        lemma_plus_all_concat(start, before, last);
        match evs.last() {
            UpstreamView::Delta(d) => {
                lemma_shown_collected(start.plus_all(before), mid, d, has_tools);
            },
            _ => {
                reveal_with_fuel(CollectedView::plus_all, 2);
                if last.len() == 1 {
                    assert(last.drop_last().len() == 0);
                }
            },
        }
    }
}

/// A client that offers tools is not left without an answer: where the buffer holds any
/// visible text, it gets a text or a tool call. Where nothing is left beside the tool calls
/// and none was found, it gets the text as it is.
pub proof fn lemma_client_sees_something(
    b: BufferView,
    cleaned: Seq<char>,
    calls: Seq<ToolCallView>,
    prompt_tokens: int,
)
    requires
        !b.streamed,
        trimmed(b.answer).len() > 0,
    ensures
        b.last_events(true, cleaned, calls, false).len() > 0,
        !b.delivered(true, cleaned, calls, false, prompt_tokens).client_saw_nothing,
        trimmed(cleaned).len() == 0 && calls.len() == 0 ==> b.last_events(
            true,
            cleaned,
            calls,
            false,
        ) == seq![OutEventView::ContentDelta(b.answer)],
{
    if trimmed(cleaned).len() == 0 && calls.len() == 0 {
        assert(b.last_events(true, cleaned, calls, false) =~= seq![
            OutEventView::ContentDelta(b.answer),
        ]);
    }
}

/// The reason for the end is `tool_calls` exactly when tool calls are delivered.
pub proof fn lemma_finish_reason(
    b: BufferView,
    has_tools: bool,
    cleaned: Seq<char>,
    calls: Seq<ToolCallView>,
    prompt_tokens: int,
)
    ensures
        ({
            let d = b.delivered(has_tools, cleaned, calls, false, prompt_tokens);
            d.finish_reason == "tool_calls"@ <==> exists|i: int|
                0 <= i < d.events.len() && #[trigger] d.events[i] is ToolCalls
        }),
{
    reveal_strlit("tool_calls");
    reveal_strlit("stop");
    assert("tool_calls"@.len() == 10 && "stop"@.len() == 4);
    let d = b.delivered(has_tools, cleaned, calls, false, prompt_tokens);
    if calls.len() > 0 {
        let n: int = if b.yields_cleaned(has_tools, cleaned) {
            1
        } else {
            0
        };
        assert(d.events[n] is ToolCalls);
    }
}

/// The tokens add up, and the count that the upstream has reported comes before any estimate.
pub proof fn lemma_usage(
    b: BufferView,
    has_tools: bool,
    cleaned: Seq<char>,
    calls: Seq<ToolCallView>,
    prompt_tokens: int,
)
    requires
        0 <= prompt_tokens,
        b.usage_fits(has_tools, cleaned, prompt_tokens),
    ensures
        ({
            let u = b.delivered(has_tools, cleaned, calls, false, prompt_tokens).usage;
            &&& u.prompt_tokens == prompt_tokens
            &&& u.total_tokens == u.prompt_tokens + u.completion_tokens
            &&& b.out_tokens > 0 ==> u.completion_tokens == b.out_tokens
            &&& u.reasoning_tokens == b.reasoning_tokens
        }),
{
}

/// The first token comes once: an event after it brings none, unless the upstream starts
/// again.
pub proof fn lemma_first_token_once(b: BufferView, ev: UpstreamView, has_tools: bool)
    requires
        b.first_token,
        !(ev is Retrying),
    ensures
        b.after_event(ev, has_tools).first_token,
{
}

/// An error is handed on and ends the run.
pub proof fn lemma_error_ends_run(b: BufferView, e: Seq<char>, has_tools: bool, c: CollectedView)
    ensures
        next_after(UpstreamView::Error(e)) == Next::Stop,
        c.plus_all(b.events_at(UpstreamView::Error(e), has_tools)).error == Some(e),
{
    reveal_with_fuel(CollectedView::plus_all, 2);
    let evs = b.events_at(UpstreamView::Error(e), has_tools);
    assert(evs.len() == 1);
    assert(evs.drop_last().len() == 0);
}

/// A caller's name never takes more than one character beyond the limit, and is kept whole
/// within it.
pub proof fn lemma_cut_caller(c: Seq<char>)
    ensures
        cut_caller(c).len() <= CALLER_CHARS + 1,
        c.len() <= CALLER_CHARS ==> cut_caller(c) == c,
{
    reveal_strlit("…");
}

} // verus!
