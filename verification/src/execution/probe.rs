//! What is recorded of a request.

use vstd::prelude::*;
use vstd::string::*;

use super::request::copy_text;
use crate::text::{opt_view, take_chars};
use crate::tokens::Usage;

verus! {

/// How many characters of a caller's name are kept.
pub const CALLER_CHARS: usize = 12;

/// A caller's name, cut to size.
pub open spec fn cut_caller(c: Seq<char>) -> Seq<char> {
    if c.len() <= CALLER_CHARS {
        c
    } else {
        c.take(CALLER_CHARS as int) + "…"@
    }
}

/// Cuts a caller's name to size.
pub fn truncate_caller(c: &str) -> (r: String)
    ensures
        r@ == cut_caller(c@),
{
    if c.unicode_len() <= CALLER_CHARS {
        String::from_str(c)
    } else {
        let mut r = take_chars(c, CALLER_CHARS);
        r.append("…");
        r
    }
}

/// What is known of a request when it comes in.
pub struct ProbeMeta {
    pub surface: String,
    pub model: String,
    pub resolved_model: String,
    pub chat_type: String,
    pub stream: bool,
    pub caller: Option<String>,
}

/// What is known of a request when it comes in, as a mathematical value.
#[verifier::ext_equal]
pub struct MetaView {
    pub surface: Seq<char>,
    pub model: Seq<char>,
    pub resolved_model: Seq<char>,
    pub chat_type: Seq<char>,
    pub stream: bool,
    pub caller: Option<Seq<char>>,
}

impl View for ProbeMeta {
    type V = MetaView;

    open spec fn view(&self) -> MetaView {
        MetaView {
            surface: self.surface@,
            model: self.model@,
            resolved_model: self.resolved_model@,
            chat_type: self.chat_type@,
            stream: self.stream,
            caller: opt_view(self.caller),
        }
    }
}

/// Follows a request. A request that is dropped half way counts as failed.
pub struct StatsProbe {
    pub meta: ProbeMeta,
    /// When the request came in, in milliseconds since the Unix epoch.
    pub start_ms: i64,
    /// How long the first token took, in milliseconds.
    pub ttft_ms: Option<i64>,
    pub usage: Usage,
    pub success: bool,
    pub error: Option<String>,
}

/// A probe, as a mathematical value.
#[verifier::ext_equal]
pub struct ProbeView {
    pub meta: MetaView,
    pub start_ms: i64,
    pub ttft_ms: Option<i64>,
    pub usage: Usage,
    pub success: bool,
    pub error: Option<Seq<char>>,
}

impl View for StatsProbe {
    type V = ProbeView;

    open spec fn view(&self) -> ProbeView {
        ProbeView {
            meta: self.meta@,
            start_ms: self.start_ms,
            ttft_ms: self.ttft_ms,
            usage: self.usage,
            success: self.success,
            error: opt_view(self.error),
        }
    }
}

/// The record of a request.
pub struct RequestRecord {
    pub ts_ms: i64,
    pub surface: String,
    pub model: String,
    pub resolved_model: String,
    pub chat_type: String,
    pub stream: bool,
    pub success: bool,
    pub error: Option<String>,
    pub prompt_tokens: i64,
    pub completion_tokens: i64,
    pub reasoning_tokens: i64,
    pub total_tokens: i64,
    pub ttft_ms: Option<i64>,
    pub duration_ms: i64,
    pub caller: Option<String>,
}

impl RequestRecord {
    /// This is the record of the request that the probe has followed.
    pub open spec fn tells(&self, p: ProbeView, duration_ms: i64) -> bool {
        &&& self.ts_ms == p.start_ms
        &&& self.surface@ == p.meta.surface
        &&& self.model@ == p.meta.model
        &&& self.resolved_model@ == p.meta.resolved_model
        &&& self.chat_type@ == p.meta.chat_type
        &&& self.stream == p.meta.stream
        &&& self.success == p.success
        &&& opt_view(self.error) == p.error
        &&& self.prompt_tokens == p.usage.prompt_tokens
        &&& self.completion_tokens == p.usage.completion_tokens
        &&& self.reasoning_tokens == p.usage.reasoning_tokens
        &&& self.total_tokens == p.usage.total_tokens
        &&& self.ttft_ms == p.ttft_ms
        &&& self.duration_ms == duration_ms
        &&& opt_view(self.caller) == p.meta.caller
    }
}

impl StatsProbe {
    /// Starts to follow a request.
    pub fn new(meta: ProbeMeta, start_ms: i64) -> (r: Self)
        ensures
            r@ == (ProbeView {
                meta: meta@,
                start_ms,
                ttft_ms: None,
                usage: Usage {
                    prompt_tokens: 0,
                    completion_tokens: 0,
                    total_tokens: 0,
                    reasoning_tokens: 0,
                },
                success: false,
                error: None,
            }),
    {
        StatsProbe {
            meta,
            start_ms,
            ttft_ms: None,
            usage: Usage::default(),
            success: false,
            error: None,
        }
    }

    /// Notes how long the first token took; only the first call counts.
    pub fn mark_first_token(&mut self, elapsed_ms: i64)
        ensures
            final(self)@ == (ProbeView {
                ttft_ms: match old(self)@.ttft_ms {
                    Some(t) => Some(t),
                    None => Some(elapsed_ms),
                },
                ..old(self)@
            }),
    {
        if self.ttft_ms.is_none() {
            self.ttft_ms = Some(elapsed_ms);
        }
    }

    /// The record of the request, which has taken so long.
    pub fn record(&self, duration_ms: i64) -> (r: RequestRecord)
        ensures
            r.tells(self@, duration_ms),
    {
        RequestRecord {
            ts_ms: self.start_ms,
            surface: self.meta.surface.clone(),
            model: self.meta.model.clone(),
            resolved_model: self.meta.resolved_model.clone(),
            chat_type: self.meta.chat_type.clone(),
            stream: self.meta.stream,
            success: self.success,
            error: copy_text(&self.error),
            prompt_tokens: self.usage.prompt_tokens,
            completion_tokens: self.usage.completion_tokens,
            reasoning_tokens: self.usage.reasoning_tokens,
            total_tokens: self.usage.total_tokens,
            ttft_ms: self.ttft_ms,
            duration_ms,
            caller: copy_text(&self.meta.caller),
        }
    }
}

} // verus!
