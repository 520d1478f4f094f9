//! What flows between the upstream, the pipeline and the client.

use vstd::prelude::*;
use vstd::string::*;

use crate::json::{Json, JsonView};
use crate::text::opt_view;
use crate::tokens::Usage;

verus! {

/// The view of an optional JSON value.
pub open spec fn opt_json_view(j: Option<Json>) -> Option<JsonView> {
    match j {
        Some(v) => Some(v@),
        None => None,
    }
}

/// A tool call that was found in the model's answer.
pub struct ParsedToolCall {
    pub id: String,
    pub name: String,
    pub arguments: Json,
}

/// A tool call, as a mathematical value.
#[verifier::ext_equal]
pub struct ToolCallView {
    pub id: Seq<char>,
    pub name: Seq<char>,
    pub arguments: JsonView,
}

impl View for ParsedToolCall {
    type V = ToolCallView;

    open spec fn view(&self) -> ToolCallView {
        ToolCallView { id: self.id@, name: self.name@, arguments: self.arguments@ }
    }
}

impl Clone for ParsedToolCall {
    fn clone(&self) -> (r: Self)
        ensures
            r@ == self@,
    {
        ParsedToolCall {
            id: self.id.clone(),
            name: self.name.clone(),
            arguments: self.arguments.clone(),
        }
    }
}

/// A copy of tool calls.
pub fn copy_calls(calls: &Vec<ParsedToolCall>) -> (r: Vec<ParsedToolCall>)
    ensures
        call_views(r@) == call_views(calls@),
{
    let mut out: Vec<ParsedToolCall> = Vec::new();
    let mut i: usize = 0;
    while i < calls.len()
        invariant
            i <= calls@.len(),
            out@.len() == i,
            forall|j: int| 0 <= j < i ==> (#[trigger] out@[j])@ == calls@[j]@,
        decreases calls@.len() - i,
    {
        out.push(calls[i].clone());
        i = i + 1;
    }
    assert(call_views(out@) =~= call_views(calls@));
    out
}

/// The tool calls of a vector, as mathematical values.
pub open spec fn call_views(calls: Seq<ParsedToolCall>) -> Seq<ToolCallView> {
    calls.map_values(|c: ParsedToolCall| c@)
}

/// One increment of the upstream's answer.
pub struct QwenDelta {
    /// The phase of the answer that this belongs to.
    pub phase: String,
    pub content: String,
    /// All of the reasoning so far, where the upstream repeats it.
    pub reasoning_cumulative: Option<String>,
    /// The reasoning that is new.
    pub reasoning_incremental: String,
    pub usage: Option<Json>,
}

/// One increment of the upstream's answer, as a mathematical value.
#[verifier::ext_equal]
pub struct DeltaView {
    pub phase: Seq<char>,
    pub content: Seq<char>,
    pub reasoning_cumulative: Option<Seq<char>>,
    pub reasoning_incremental: Seq<char>,
    pub usage: Option<JsonView>,
}

impl View for QwenDelta {
    type V = DeltaView;

    open spec fn view(&self) -> DeltaView {
        DeltaView {
            phase: self.phase@,
            content: self.content@,
            reasoning_cumulative: opt_view(self.reasoning_cumulative),
            reasoning_incremental: self.reasoning_incremental@,
            usage: opt_json_view(self.usage),
        }
    }
}

impl DeltaView {
    /// The increment belongs to the model's thinking, not to its answer.
    pub open spec fn is_thinking(self) -> bool {
        self.phase == "think"@ || self.phase == "thinking_summary"@
    }
}

/// An event of the upstream's stream.
pub enum UpstreamEvent {
    Meta { chat_id: String, email: String },
    Delta(QwenDelta),
    Done,
    Error(String),
    /// Another account takes over; what came so far is void.
    Retrying,
}

/// An event of the upstream's stream, as a mathematical value.
pub enum UpstreamView {
    Meta { chat_id: Seq<char>, email: Seq<char> },
    Delta(DeltaView),
    Done,
    Error(Seq<char>),
    Retrying,
}

impl View for UpstreamEvent {
    type V = UpstreamView;

    open spec fn view(&self) -> UpstreamView {
        match *self {
            UpstreamEvent::Meta { chat_id, email } => UpstreamView::Meta {
                chat_id: chat_id@,
                email: email@,
            },
            UpstreamEvent::Delta(d) => UpstreamView::Delta(d@),
            UpstreamEvent::Done => UpstreamView::Done,
            UpstreamEvent::Error(e) => UpstreamView::Error(e@),
            UpstreamEvent::Retrying => UpstreamView::Retrying,
        }
    }
}

/// An event for the client.
pub enum OutEvent {
    ReasoningDelta(String),
    ContentDelta(String),
    ToolCalls(Vec<ParsedToolCall>),
    Done { usage: Usage, finish_reason: String, email: Option<String> },
    Error(String),
}

/// An event for the client, as a mathematical value.
pub enum OutEventView {
    ReasoningDelta(Seq<char>),
    ContentDelta(Seq<char>),
    ToolCalls(Seq<ToolCallView>),
    Done { usage: Usage, finish_reason: Seq<char>, email: Option<Seq<char>> },
    Error(Seq<char>),
}

impl View for OutEvent {
    type V = OutEventView;

    open spec fn view(&self) -> OutEventView {
        match *self {
            OutEvent::ReasoningDelta(s) => OutEventView::ReasoningDelta(s@),
            OutEvent::ContentDelta(s) => OutEventView::ContentDelta(s@),
            OutEvent::ToolCalls(c) => OutEventView::ToolCalls(call_views(c@)),
            OutEvent::Done { usage, finish_reason, email } => OutEventView::Done {
                usage,
                finish_reason: finish_reason@,
                email: opt_view(email),
            },
            OutEvent::Error(s) => OutEventView::Error(s@),
        }
    }
}

/// The events of a vector, as mathematical values.
pub open spec fn event_views(events: Seq<OutEvent>) -> Seq<OutEventView> {
    events.map_values(|e: OutEvent| e@)
}

} // verus!
