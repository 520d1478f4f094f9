//! A completion: the run of a request from the first upstream event to the closing event for
//! the client.

use vstd::prelude::*;
use vstd::string::*;

use super::buffer::{parse_upstream_usage, usage_of, BufferView, ContentBuffer};
use super::delivery::{
    polluted_names, resolved_calls, stage6_resolve_tools, stage7_deliver, DeliveryView,
};
use super::probe::{cut_caller, truncate_caller, MetaView, ProbeMeta, ProbeView, StatsProbe};
use super::request::{stage1_intake, stage3_bind, StandardRequest, StreamParams};
use crate::events::{
    call_views, event_views, OutEvent, OutEventView, ParsedToolCall, ToolCallView,
    UpstreamEvent, UpstreamView,
};
use crate::text::opt_view;
use crate::tokens::{cl100k_tokens, tokenizable, Usage};

verus! {

/// What comes after an upstream event.
#[derive(Clone, Copy, PartialEq, Eq, Structural, Debug)]
pub enum Next {
    /// More upstream events.
    More,
    /// The answer is complete and can be finished.
    Finish,
    /// The run is over.
    Stop,
}

/// The run of a request.
pub struct Completion {
    pub has_tools: bool,
    pub prompt: String,
    pub buffer: ContentBuffer,
    pub probe: StatsProbe,
}

impl BufferView {
    /// The buffer after an upstream event.
    pub open spec fn after_event(self, ev: UpstreamView, has_tools: bool) -> BufferView {
        match ev {
            UpstreamView::Meta { email, .. } => BufferView { email: Some(email), ..self },
            UpstreamView::Delta(d) => {
                let noted = match d.usage {
                    Some(u) => self.with_usage(usage_of(u).0, usage_of(u).1),
                    None => self,
                };
                noted.absorbed(d, has_tools)
            },
            UpstreamView::Retrying => self.cleared(),
            _ => self,
        }
    }

    /// What the client gets at an upstream event.
    pub open spec fn events_at(self, ev: UpstreamView, has_tools: bool) -> Seq<OutEventView> {
        match ev {
            UpstreamView::Delta(d) => self.shown_events(d, has_tools),
            UpstreamView::Error(e) => seq![OutEventView::Error(e)],
            _ => Seq::empty(),
        }
    }
}

/// What comes after an upstream event.
pub open spec fn next_after(ev: UpstreamView) -> Next {
    match ev {
        UpstreamView::Done => Next::Finish,
        UpstreamView::Error(_) => Next::Stop,
        _ => Next::More,
    }
}

impl ProbeView {
    /// The probe after an upstream event.
    pub open spec fn after_event(
        self,
        ev: UpstreamView,
        brought_first_token: bool,
        elapsed_ms: i64,
    ) -> ProbeView {
        match ev {
            UpstreamView::Delta(_) => if brought_first_token && self.ttft_ms is None {
                ProbeView { ttft_ms: Some(elapsed_ms), ..self }
            } else {
                self
            },
            UpstreamView::Error(e) => ProbeView { error: Some(e), success: false, ..self },
            _ => self,
        }
    }
}

/// What is known of a request when it comes in.
pub open spec fn meta_of(std: StandardRequest) -> MetaView {
    MetaView {
        surface: std.surface@,
        model: std.response_model@,
        resolved_model: std.resolved_model@,
        chat_type: std.chat_type@,
        stream: std.stream,
        caller: match opt_view(std.caller) {
            Some(c) => Some(cut_caller(c)),
            None => None,
        },
    }
}

/// Starts the run of a request. The parameters are for the upstream.
pub fn run_completion(std: &StandardRequest, start_ms: i64) -> (r: (Completion, StreamParams))
    ensures
        r.0.has_tools == std.offers_tools(),
        r.0.prompt@ == std.prompt@,
        r.0.buffer@ == BufferView::empty(),
        r.0.probe@ == (ProbeView {
            meta: meta_of(*std),
            start_ms,
            ttft_ms: None,
            usage: Usage {
                prompt_tokens: 0,
                completion_tokens: 0,
                total_tokens: 0,
                reasoning_tokens: 0,
            },
            success: false,
            error: None,
        }),
        r.1@ == std.intake(),
{
    let params = stage1_intake(std);
    let meta = ProbeMeta {
        surface: std.surface.clone(),
        model: std.response_model.clone(),
        resolved_model: std.resolved_model.clone(),
        chat_type: std.chat_type.clone(),
        stream: std.stream,
        caller: match std.caller.as_ref() {
            Some(c) => Some(truncate_caller(c.as_str())),
            None => None,
        },
    };
    let run = Completion {
        has_tools: std.has_tools(),
        prompt: std.prompt.clone(),
        buffer: ContentBuffer::new(),
        probe: StatsProbe::new(meta, start_ms),
    };
    (run, stage3_bind(&params))
}

/// The end of a run.
pub struct Finish {
    /// What the client still gets, with the closing event.
    pub events: Vec<OutEvent>,
    /// The names of the tool calls that hold a dangerous path.
    pub polluted_tools: Vec<String>,
    /// The client has got nothing at all.
    pub client_saw_nothing: bool,
    /// The client has got suspiciously little.
    pub suspicious_short: bool,
}

impl Completion {
    /// Takes one upstream event in. Returns what the client gets and what comes next.
    pub fn on_event(&mut self, ev: UpstreamEvent, elapsed_ms: i64) -> (r: (Vec<OutEvent>, Next))
        requires
            ev@ matches UpstreamView::Delta(d) ==> old(self).buffer@.has_room(d),
        ensures
            final(self).has_tools == old(self).has_tools,
            final(self).prompt@ == old(self).prompt@,
            final(self).buffer@ == old(self).buffer@.after_event(ev@, old(self).has_tools),
            final(self).probe@ == old(self).probe@.after_event(
                ev@,
                final(self).buffer@.first_token && !old(self).buffer@.first_token,
                elapsed_ms,
            ),
            event_views(r.0@) == old(self).buffer@.events_at(ev@, old(self).has_tools),
            r.1 == next_after(ev@),
    {
        let mut out: Vec<OutEvent> = Vec::new();
        assert(event_views(out@) =~= Seq::empty());
        match ev {
            UpstreamEvent::Meta { email, .. } => {
                self.buffer.last_email = Some(email);
                (out, Next::More)
            },
            UpstreamEvent::Delta(d) => {
                if let Some(u) = d.usage.as_ref() {
                    let (o, r): (i64, i64) = parse_upstream_usage(u);
                    self.buffer.note_usage(o, r);
                }
                let (events, first) = self.buffer.process_delta(&d, self.has_tools);
                if first {
                    self.probe.mark_first_token(elapsed_ms);
                }
                (events, Next::More)
            },
            UpstreamEvent::Done => (out, Next::Finish),
            UpstreamEvent::Error(e) => {
                self.probe.error = Some(e.clone());
                self.probe.success = false;
                out.push(OutEvent::Error(e));
                assert(event_views(out@) =~= seq![OutEventView::Error(ev@->Error_0)]);
                (out, Next::Stop)
            },
            UpstreamEvent::Retrying => {
                self.buffer.reset();
                (out, Next::More)
            },
        }
    }

    /// Finishes a complete answer: `found` are the tool calls in it, `cleaned` is its text
    /// without them. There is no result where the tokenizer cannot take the prompt or the
    /// counts do not fit.
    pub fn finish(&mut self, found: Vec<ParsedToolCall>, cleaned: &str) -> (r: Option<Finish>)
        ensures
            final(self).buffer@ == old(self).buffer@,
            final(self).has_tools == old(self).has_tools,
            final(self).prompt@ == old(self).prompt@,
            ({
                let b = old(self).buffer@;
                let has_tools = old(self).has_tools;
                let prompt = old(self).prompt@;
                let tokens = cl100k_tokens(prompt).len() as int;
                let calls = resolved_calls(b.answer, has_tools, call_views(found@));
                let d = b.delivered(has_tools, cleaned@, calls, false, tokens);
                if tokenizable(prompt) && b.usage_fits(has_tools, cleaned@, tokens) {
                    &&& r matches Some(f) && event_views(f.events@) == closed(d)
                        && f.polluted_tools@.map_values(|s: String| s@) == polluted_names(calls)
                        && f.client_saw_nothing == d.client_saw_nothing && f.suspicious_short
                        == d.suspicious_short
                    &&& final(self).probe@ == (ProbeView {
                        usage: d.usage,
                        success: true,
                        ..old(self).probe@
                    })
                } else {
                    r is None && final(self).probe@ == old(self).probe@
                }
            }),
    {
        let resolution = stage6_resolve_tools(
            self.buffer.answer_buf.as_str(),
            self.has_tools,
            found,
        );
        match stage7_deliver(
            &self.buffer,
            &resolution,
            self.has_tools,
            cleaned,
            self.prompt.as_str(),
        ) {
            None => None,
            Some(d) => {
                let ghost dv = d@;
                let mut events = d.events;
                let ghost e0 = events@;
                self.probe.usage = d.usage;
                self.probe.success = true;
                events.push(
                    OutEvent::Done { usage: d.usage, finish_reason: d.finish_reason, email: d.email },
                );
                assert(event_views(events@) =~= event_views(e0).push(
                    OutEventView::Done {
                        usage: dv.usage,
                        finish_reason: dv.finish_reason,
                        email: dv.email,
                    },
                ));
                Some(
                    Finish {
                        events,
                        polluted_tools: resolution.polluted_tools,
                        client_saw_nothing: d.client_saw_nothing,
                        suspicious_short: d.suspicious_short,
                    },
                )
            },
        }
    }
}

/// The end of an answer with the closing event.
pub open spec fn closed(d: DeliveryView) -> Seq<OutEventView> {
    d.events.push(
        OutEventView::Done { usage: d.usage, finish_reason: d.finish_reason, email: d.email },
    )
}

/// A whole answer.
pub struct CollectedResult {
    pub content: String,
    pub reasoning: String,
    pub tool_calls: Vec<ParsedToolCall>,
    pub usage: Usage,
    pub finish_reason: String,
    pub error: Option<String>,
    pub email: Option<String>,
}

/// A whole answer, as a mathematical value.
#[verifier::ext_equal]
pub struct CollectedView {
    pub content: Seq<char>,
    pub reasoning: Seq<char>,
    pub tool_calls: Seq<ToolCallView>,
    pub usage: Usage,
    pub finish_reason: Seq<char>,
    pub error: Option<Seq<char>>,
    pub email: Option<Seq<char>>,
}

impl View for CollectedResult {
    type V = CollectedView;

    open spec fn view(&self) -> CollectedView {
        CollectedView {
            content: self.content@,
            reasoning: self.reasoning@,
            tool_calls: call_views(self.tool_calls@),
            usage: self.usage,
            finish_reason: self.finish_reason@,
            error: opt_view(self.error),
            email: opt_view(self.email),
        }
    }
}

impl CollectedView {
    /// Nothing has come yet.
    pub open spec fn empty() -> CollectedView {
        CollectedView {
            content: Seq::empty(),
            reasoning: Seq::empty(),
            tool_calls: Seq::empty(),
            usage: Usage {
                prompt_tokens: 0,
                completion_tokens: 0,
                total_tokens: 0,
                reasoning_tokens: 0,
            },
            finish_reason: "stop"@,
            error: None,
            email: None,
        }
    }

    /// One more event has come.
    pub open spec fn plus(self, ev: OutEventView) -> CollectedView {
        match ev {
            OutEventView::ReasoningDelta(r) => CollectedView {
                reasoning: self.reasoning + r,
                ..self
            },
            OutEventView::ContentDelta(c) => CollectedView { content: self.content + c, ..self },
            OutEventView::ToolCalls(calls) => CollectedView { tool_calls: calls, ..self },
            OutEventView::Done { usage, finish_reason, email } => CollectedView {
                usage,
                finish_reason,
                email,
                ..self
            },
            OutEventView::Error(e) => CollectedView { error: Some(e), ..self },
        }
    }

    /// The events of a whole stream have come.
    pub open spec fn plus_all(self, events: Seq<OutEventView>) -> CollectedView
        decreases events.len(),
    {
        if events.len() == 0 {
            self
        } else {
            self.plus_all(events.drop_last()).plus(events.last())
        }
    }
}

impl CollectedResult {
    /// Nothing has come yet.
    pub fn new() -> (r: Self)
        ensures
            r@ == CollectedView::empty(),
    {
        let r = CollectedResult {
            content: String::new(),
            reasoning: String::new(),
            tool_calls: Vec::new(),
            usage: Usage::default(),
            finish_reason: String::from_str("stop"),
            error: None,
            email: None,
        };
        assert(call_views(r.tool_calls@) =~= Seq::empty());
        r
    }

    /// Takes one more event.
    pub fn absorb(&mut self, ev: OutEvent)
        ensures
            final(self)@ == old(self)@.plus(ev@),
    {
        match ev {
            OutEvent::ReasoningDelta(r) => {
                self.reasoning.append(r.as_str());
            },
            OutEvent::ContentDelta(c) => {
                self.content.append(c.as_str());
            },
            OutEvent::ToolCalls(calls) => {
                self.tool_calls = calls;
            },
            OutEvent::Done { usage, finish_reason, email } => {
                self.usage = usage;
                self.finish_reason = finish_reason;
                self.email = email;
            },
            OutEvent::Error(e) => {
                self.error = Some(e);
            },
        }
    }
}

/// The whole answer of a stream of events.
pub fn collect_completion(events: Vec<OutEvent>) -> (r: CollectedResult)
    ensures
        r@ == CollectedView::empty().plus_all(event_views(events@)),
{
    let ghost list = events@;
    let ghost all = event_views(events@);
    let mut r = CollectedResult::new();
    assert(all.take(0) =~= Seq::empty());
    for ev in it: events
        invariant
            it.seq() == list,
            all == event_views(list),
            r@ == CollectedView::empty().plus_all(all.take(it.index() as int)),
    {
        let ghost i = it.index() as int;
        assert(all.take(i + 1).drop_last() =~= all.take(i));
        assert(all.take(i + 1).last() == ev@);
        r.absorb(ev);
    }
    assert(all.take(all.len() as int) =~= all);
    r
}

} // verus!
