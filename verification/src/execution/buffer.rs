//! Buffering the upstream's answer.

use vstd::hash_map::StringHashMap;
use vstd::prelude::*;
use vstd::string::*;

use crate::events::{event_views, DeltaView, OutEvent, OutEventView, QwenDelta};
use crate::json::{Json, JsonView};
use crate::text::{opt_view, starts_with, str_eq};

verus! {

/// What reasoning an increment adds to what has been shown, and what has been shown then. A
/// cumulative text that goes on where the shown one ended adds the rest; any other is new as
/// a whole.
pub open spec fn reasoning_step(
    shown: Seq<char>,
    cumulative: Option<Seq<char>>,
    incremental: Seq<char>,
) -> (Seq<char>, Seq<char>) {
    match cumulative {
        Some(full) => if shown.is_prefix_of(full) {
            (full.skip(shown.len() as int), full)
        } else {
            (full, full)
        },
        None => (incremental, shown + incremental),
    }
}

/// Finds out which reasoning is new.
pub struct ReasoningTracker {
    pub emitted: String,
}

impl ReasoningTracker {
    /// A tracker that has seen nothing.
    pub fn new() -> (r: Self)
        ensures
            r.emitted@ == Seq::<char>::empty(),
    {
        ReasoningTracker { emitted: String::new() }
    }

    /// The reasoning that is new.
    pub fn delta(&mut self, cumulative: &Option<String>, incremental: &str) -> (r: String)
        ensures
            (r@, final(self).emitted@) == reasoning_step(
                old(self).emitted@,
                opt_view(*cumulative),
                incremental@,
            ),
    {
        match cumulative {
            Some(full) => {
                let inc = if starts_with(full.as_str(), self.emitted.as_str()) {
                    let from: usize = self.emitted.as_str().unicode_len();
                    let to: usize = full.as_str().unicode_len();
                    let rest = String::from_str(full.as_str().substring_char(from, to));
                    assert(full@.subrange(from as int, to as int) =~= full@.skip(from as int));
                    rest
                } else {
                    full.clone()
                };
                self.emitted = full.clone();
                inc
            },
            None => {
                if !incremental.is_empty() {
                    self.emitted.append(incremental);
                    String::from_str(incremental)
                } else {
                    assert(incremental@ =~= Seq::empty());
                    assert(self.emitted@ + incremental@ =~= self.emitted@);
                    String::new()
                }
            },
        }
    }
}

/// The tokens of the answer and of the reasoning that the upstream reports.
pub open spec fn usage_of(v: JsonView) -> (i64, i64) {
    (
        match v.field("output_tokens"@) {
            Some(x) => x.as_int(),
            None => None,
        }.unwrap_or(0),
        match v.field("output_tokens_details"@) {
            Some(d) => match d.field("reasoning_tokens"@) {
                Some(x) => x.as_int(),
                None => None,
            },
            None => None,
        }.unwrap_or(0),
    )
}

/// The tokens of the answer and of the reasoning that the upstream reports; none where it
/// does not.
pub fn parse_upstream_usage(v: &Json) -> (r: (i64, i64))
    ensures
        r == usage_of(v@),
{
    let output: Option<i64> = match v.get("output_tokens") {
        Some(x) => x.as_i64(),
        None => None,
    };
    let reasoning: Option<i64> = match v.get("output_tokens_details") {
        Some(d) => match d.get("reasoning_tokens") {
            Some(x) => x.as_i64(),
            None => None,
        },
        None => None,
    };
    (
        match output {
            Some(n) => n,
            None => 0,
        },
        match reasoning {
            Some(n) => n,
            None => 0,
        },
    )
}

/// The buffer, as a mathematical value.
#[verifier::ext_equal]
pub struct BufferView {
    /// The reasoning that has been shown.
    pub shown: Seq<char>,
    pub answer: Seq<char>,
    /// Whether a part of the answer has gone to the client.
    pub streamed: bool,
    pub out_tokens: i64,
    pub reasoning_tokens: i64,
    /// The account that serves the request.
    pub email: Option<Seq<char>>,
    /// How many increments each phase had.
    pub phases: Map<Seq<char>, usize>,
    /// How many characters the thinking phases held.
    pub skipped_chars: int,
    /// Whether the first token has come.
    pub first_token: bool,
}

/// The answer so far.
pub struct ContentBuffer {
    pub tracker: ReasoningTracker,
    pub answer_buf: String,
    pub streamed_content: bool,
    pub last_out_tokens: i64,
    pub last_reasoning_tokens: i64,
    pub last_email: Option<String>,
    pub phase_counts: StringHashMap<usize>,
    pub skipped_phase_content_chars: usize,
    pub ttft_recorded: bool,
}

impl View for ContentBuffer {
    type V = BufferView;

    open spec fn view(&self) -> BufferView {
        BufferView {
            shown: self.tracker.emitted@,
            answer: self.answer_buf@,
            streamed: self.streamed_content,
            out_tokens: self.last_out_tokens,
            reasoning_tokens: self.last_reasoning_tokens,
            email: opt_view(self.last_email),
            phases: self.phase_counts@,
            skipped_chars: self.skipped_phase_content_chars as int,
            first_token: self.ttft_recorded,
        }
    }
}

impl BufferView {
    /// A buffer that holds nothing.
    pub open spec fn empty() -> BufferView {
        BufferView {
            shown: Seq::empty(),
            answer: Seq::empty(),
            streamed: false,
            out_tokens: 0,
            reasoning_tokens: 0,
            email: None,
            phases: Map::empty(),
            skipped_chars: 0,
            first_token: false,
        }
    }

    /// How many increments the phase had.
    pub open spec fn phase_count(self, phase: Seq<char>) -> usize {
        if self.phases.contains_key(phase) {
            self.phases[phase]
        } else {
            0
        }
    }

    /// The counts have room for one more increment.
    pub open spec fn has_room(self, d: DeltaView) -> bool {
        &&& self.phase_count(d.phase) < usize::MAX
        &&& self.skipped_chars + d.content.len() <= usize::MAX
    }

    /// The reasoning that an increment adds.
    pub open spec fn new_reasoning(self, d: DeltaView) -> Seq<char> {
        reasoning_step(self.shown, d.reasoning_cumulative, d.reasoning_incremental).0
    }

    /// The increment adds to the answer.
    pub open spec fn adds_content(self, d: DeltaView) -> bool {
        d.content.len() > 0 && !d.is_thinking()
    }

    /// The buffer after an increment.
    pub open spec fn absorbed(self, d: DeltaView, has_tools: bool) -> BufferView {
        BufferView {
            shown: reasoning_step(self.shown, d.reasoning_cumulative, d.reasoning_incremental).1,
            answer: if d.is_thinking() {
                self.answer
            } else {
                self.answer + d.content
            },
            streamed: self.streamed || (self.adds_content(d) && !has_tools),
            phases: self.phases.insert(d.phase, (self.phase_count(d.phase) + 1) as usize),
            skipped_chars: if d.is_thinking() {
                self.skipped_chars + d.content.len()
            } else {
                self.skipped_chars
            },
            first_token: self.first_token || self.new_reasoning(d).len() > 0 || self.adds_content(
                d,
            ),
            ..self
        }
    }

    /// What the client gets of an increment: its reasoning and, unless tool calls may be
    /// hidden in it, its content.
    pub open spec fn shown_events(self, d: DeltaView, has_tools: bool) -> Seq<OutEventView> {
        let reasoning = if self.new_reasoning(d).len() > 0 {
            seq![OutEventView::ReasoningDelta(self.new_reasoning(d))]
        } else {
            Seq::empty()
        };
        if self.adds_content(d) && !has_tools {
            reasoning.push(OutEventView::ContentDelta(d.content))
        } else {
            reasoning
        }
    }

    /// The buffer with the tokens that the upstream has reported; a count that is not positive
    /// says nothing.
    pub open spec fn with_usage(self, output: i64, reasoning: i64) -> BufferView {
        BufferView {
            out_tokens: if output > 0 {
                output
            } else {
                self.out_tokens
            },
            reasoning_tokens: if reasoning > 0 {
                reasoning
            } else {
                self.reasoning_tokens
            },
            ..self
        }
    }

    /// The buffer for another try: all but the account is forgotten.
    pub open spec fn cleared(self) -> BufferView {
        BufferView { email: self.email, ..BufferView::empty() }
    }
}

impl ContentBuffer {
    /// A buffer that holds nothing.
    pub fn new() -> (r: Self)
        ensures
            r@ == BufferView::empty(),
    {
        ContentBuffer {
            tracker: ReasoningTracker::new(),
            answer_buf: String::new(),
            streamed_content: false,
            last_out_tokens: 0,
            last_reasoning_tokens: 0,
            last_email: None,
            phase_counts: StringHashMap::new(),
            skipped_phase_content_chars: 0,
            ttft_recorded: false,
        }
    }

    /// Whether the counts have room for one more increment.
    pub fn has_room(&self, d: &QwenDelta) -> (r: bool)
        ensures
            r == self@.has_room(d@),
    {
        let count: usize = match self.phase_counts.get(d.phase.as_str()) {
            Some(n) => *n,
            None => 0,
        };
        let len: usize = d.content.as_str().unicode_len();
        count < usize::MAX && self.skipped_phase_content_chars <= usize::MAX - len
    }

    /// Takes one increment in. Returns what the client gets of it, and whether it brought the
    /// first token.
    pub fn process_delta(&mut self, d: &QwenDelta, has_tools: bool) -> (r: (Vec<OutEvent>, bool))
        requires
            old(self)@.has_room(d@),
        ensures
            final(self)@ == old(self)@.absorbed(d@, has_tools),
            event_views(r.0@) == old(self)@.shown_events(d@, has_tools),
            r.1 == (final(self)@.first_token && !old(self)@.first_token),
    {
        let ghost b0 = self@;
        let mut out: Vec<OutEvent> = Vec::new();
        let mut first = false;
        let count: usize = match self.phase_counts.get(d.phase.as_str()) {
            Some(n) => *n,
            None => 0,
        };
        self.phase_counts.insert(d.phase.clone(), count + 1);
        let rinc = self.tracker.delta(&d.reasoning_cumulative, d.reasoning_incremental.as_str());
        let ghost reasoning = rinc@;
        assert(reasoning == b0.new_reasoning(d@));
        if !rinc.as_str().is_empty() {
            if !self.ttft_recorded {
                first = true;
                self.ttft_recorded = true;
            }
            out.push(OutEvent::ReasoningDelta(rinc));
        }
        let ghost part = if reasoning.len() > 0 {
            seq![OutEventView::ReasoningDelta(reasoning)]
        } else {
            Seq::empty()
        };
        assert(event_views(out@) =~= part);
        let ghost out0 = out@;
        if !d.content.as_str().is_empty() {
            if !str_eq(d.phase.as_str(), "think") && !str_eq(d.phase.as_str(), "thinking_summary") {
                if !self.ttft_recorded {
                    first = true;
                    self.ttft_recorded = true;
                }
                self.answer_buf.append(d.content.as_str());
                if !has_tools {
                    out.push(OutEvent::ContentDelta(d.content.clone()));
                    self.streamed_content = true;
                    assert(event_views(out@) =~= event_views(out0).push(
                        OutEventView::ContentDelta(d.content@),
                    ));
                }
            } else {
                let len: usize = d.content.as_str().unicode_len();
                self.skipped_phase_content_chars = self.skipped_phase_content_chars + len;
            }
        } else {
            assert(d.content@ =~= Seq::empty());
            assert(self.answer_buf@ + d.content@ =~= self.answer_buf@);
        }
        (out, first)
    }

    /// Notes the tokens that the upstream has reported.
    pub fn note_usage(&mut self, output: i64, reasoning: i64)
        ensures
            final(self)@ == old(self)@.with_usage(output, reasoning),
    {
        if output > 0 {
            self.last_out_tokens = output;
        }
        if reasoning > 0 {
            self.last_reasoning_tokens = reasoning;
        }
    }

    /// Forgets the answer so far, for another try.
    pub fn reset(&mut self)
        ensures
            final(self)@ == old(self)@.cleared(),
    {
        self.answer_buf = String::new();
        self.streamed_content = false;
        self.tracker = ReasoningTracker::new();
        self.last_out_tokens = 0;
        self.last_reasoning_tokens = 0;
        self.phase_counts.clear();
        self.skipped_phase_content_chars = 0;
        self.ttft_recorded = false;
    }
}

} // verus!
