//! The run of a request over the accounts of the pool.
//!
//! A request is tried on one account after the other until one of them answers. The run is a
//! sequence of turns: each tells what to do next, and the outcome of that leads to the next
//! turn. Whoever drives the run performs the work, marks the account and cleans up as the turn
//! says, and hands its events on.

use vstd::prelude::*;
use vstd::string::*;

use super::frames::{frames, leftover, Framer};
use crate::email_set::EmailSet;
use crate::events::{QwenDelta, UpstreamEvent, UpstreamView};
use crate::execution::request::{copy_text, ParamsView, StreamParams};
use crate::pool::handle::{AccountHandle, HandleView};
use crate::text::{
    contains, decimal, decimal_of, has_part, lowercase, opt_view, str_eq, to_lowercase, utf8_lossy,
};

verus! {

/// How long a request waits for an account, in microseconds.
pub const ACQUIRE_TIMEOUT: u64 = 60_000_000;

/// What an error says of the account.
#[derive(Clone, Copy, PartialEq, Eq, Structural, Debug)]
pub enum Blame {
    /// It has met a rate limit.
    RateLimited,
    /// It has not been activated.
    PendingActivation,
    /// It was turned away.
    AuthError,
    /// Nothing.
    Nothing,
}

/// What an error, in lower case, says of the account.
pub open spec fn blame_of(lower: Seq<char>) -> Blame {
    if has_part(lower, "429"@) || has_part(lower, "rate limit"@) || has_part(lower, "ratelimited"@)
        || has_part(lower, "too many"@) || has_part(lower, "upper limit"@) || has_part(
        lower,
        "today's usage"@,
    ) {
        Blame::RateLimited
    } else if has_part(lower, "unauthorized"@) || has_part(lower, "401"@) || has_part(
        lower,
        "403"@,
    ) {
        if has_part(lower, "activation"@) || has_part(lower, "pending"@) {
            Blame::PendingActivation
        } else {
            Blame::AuthError
        }
    } else {
        Blame::Nothing
    }
}

/// What an error, in lower case, says of the account.
pub fn classify(lower: &str) -> (r: Blame)
    ensures
        r == blame_of(lower@),
{
    if contains(lower, "429") || contains(lower, "rate limit") || contains(lower, "ratelimited")
        || contains(lower, "too many") || contains(lower, "upper limit") || contains(
        lower,
        "today's usage",
    ) {
        Blame::RateLimited
    } else if contains(lower, "unauthorized") || contains(lower, "401") || contains(lower, "403") {
        if contains(lower, "activation") || contains(lower, "pending") {
            Blame::PendingActivation
        } else {
            Blame::AuthError
        }
    } else {
        Blame::Nothing
    }
}

/// What to note of an account.
pub enum Mark {
    RateLimited { email: String },
    Invalid { email: String, reason: String, err: String },
    Success { email: String },
}

/// What to note of an account, as a mathematical value.
pub enum MarkView {
    RateLimited { email: Seq<char> },
    Invalid { email: Seq<char>, reason: Seq<char>, err: Seq<char> },
    Success { email: Seq<char> },
}

impl View for Mark {
    type V = MarkView;

    open spec fn view(&self) -> MarkView {
        match *self {
            Mark::RateLimited { email } => MarkView::RateLimited { email: email@ },
            Mark::Invalid { email, reason, err } => MarkView::Invalid {
                email: email@,
                reason: reason@,
                err: err@,
            },
            Mark::Success { email } => MarkView::Success { email: email@ },
        }
    }
}

/// The view of an optional mark.
pub open spec fn opt_mark_view(m: Option<Mark>) -> Option<MarkView> {
    match m {
        Some(v) => Some(v@),
        None => None,
    }
}

/// What an error has noted of an account.
pub open spec fn mark_for(email: Seq<char>, err: Seq<char>, blame: Blame) -> Option<MarkView> {
    match blame {
        Blame::RateLimited => Some(MarkView::RateLimited { email }),
        Blame::PendingActivation => Some(
            MarkView::Invalid { email, reason: "pending_activation"@, err },
        ),
        Blame::AuthError => Some(MarkView::Invalid { email, reason: "auth_error"@, err }),
        Blame::Nothing => None,
    }
}

/// What an error has noted of an account.
pub fn classify_and_mark(email: &str, err: &str) -> (r: Option<Mark>)
    ensures
        opt_mark_view(r) == mark_for(email@, err@, blame_of(lowercase(err@))),
{
    let lower = to_lowercase(err);
    match classify(lower.as_str()) {
        Blame::RateLimited => Some(Mark::RateLimited { email: String::from_str(email) }),
        Blame::PendingActivation => Some(
            Mark::Invalid {
                email: String::from_str(email),
                reason: String::from_str("pending_activation"),
                err: String::from_str(err),
            },
        ),
        Blame::AuthError => Some(
            Mark::Invalid {
                email: String::from_str(email),
                reason: String::from_str("auth_error"),
                err: String::from_str(err),
            },
        ),
        Blame::Nothing => None,
    }
}

/// What the pool of chats that were created in advance has answered.
pub enum Pooled {
    /// It has not been asked.
    NotAsked,
    /// It has no chat for the account.
    Empty,
    /// It has one.
    Chat(String),
}

/// What the pool of chats has answered, as a mathematical value.
pub enum PooledView {
    NotAsked,
    Empty,
    Chat(Seq<char>),
}

impl View for Pooled {
    type V = PooledView;

    open spec fn view(&self) -> PooledView {
        match *self {
            Pooled::NotAsked => PooledView::NotAsked,
            Pooled::Empty => PooledView::Empty,
            Pooled::Chat(id) => PooledView::Chat(id@),
        }
    }
}

/// What to do for a chat.
pub enum ChatStep {
    /// Use this one.
    Use(String),
    /// Ask the pool of chats that were created in advance.
    AskPool,
    /// Create one.
    Create,
}

/// What to do for a chat, as a mathematical value.
pub enum ChatStepView {
    Use(Seq<char>),
    AskPool,
    Create,
}

impl View for ChatStep {
    type V = ChatStepView;

    open spec fn view(&self) -> ChatStepView {
        match *self {
            ChatStep::Use(id) => ChatStepView::Use(id@),
            ChatStep::AskPool => ChatStepView::AskPool,
            ChatStep::Create => ChatStepView::Create,
        }
    }
}

/// What to do for the chat of a request: one that is given is used. Otherwise a text request
/// that allows it asks for one that was created in advance. Where there is none, one is created.
pub open spec fn chat_step(p: ParamsView, pooled: PooledView) -> ChatStepView {
    match p.existing_chat_id {
        Some(id) => ChatStepView::Use(id),
        None => if p.use_prewarmed && p.chat_type == "t2t"@ {
            match pooled {
                PooledView::NotAsked => ChatStepView::AskPool,
                PooledView::Empty => ChatStepView::Create,
                PooledView::Chat(id) => ChatStepView::Use(id),
            }
        } else {
            ChatStepView::Create
        },
    }
}

/// An account that a run holds, and the chat that it has to delete.
pub struct Held {
    pub email: String,
    pub token: String,
    /// Whether the account came from the pool and has to be given back.
    pub pooled: bool,
    pub chat_id: Option<String>,
}

/// An account that a run holds, as a mathematical value.
#[verifier::ext_equal]
pub struct HeldView {
    pub email: Seq<char>,
    pub token: Seq<char>,
    pub pooled: bool,
    pub chat_id: Option<Seq<char>>,
}

impl View for Held {
    type V = HeldView;

    open spec fn view(&self) -> HeldView {
        HeldView {
            email: self.email@,
            token: self.token@,
            pooled: self.pooled,
            chat_id: opt_view(self.chat_id),
        }
    }
}

/// The view of an optional held account.
pub open spec fn opt_held_view(h: Option<Held>) -> Option<HeldView> {
    match h {
        Some(v) => Some(v@),
        None => None,
    }
}

/// Where a run stands.
#[derive(Clone, Copy, PartialEq, Eq, Structural, Debug)]
pub enum Stage {
    /// It waits for an account.
    Account,
    /// It waits for a chat.
    Chat,
    /// It waits for the stream to start.
    Starting,
    /// It reads the stream.
    Reading,
    /// It is over.
    Ended,
}

/// A run, as a mathematical value.
#[verifier::ext_equal]
pub struct RunView {
    pub params: ParamsView,
    /// How many accounts may be tried.
    pub attempts: int,
    /// How many accounts have been tried before the present one.
    pub tried: int,
    /// Accounts that must not be tried.
    pub exclude: Set<Seq<char>>,
    pub last_error: Option<Seq<char>>,
    pub held: Option<HeldView>,
    pub stage: Stage,
    /// Whether a part of the answer has been handed on.
    pub first_delta: bool,
}

/// A turn, as a mathematical value.
#[verifier::ext_equal]
pub struct TurnView {
    pub mark: Option<MarkView>,
    pub events: Seq<UpstreamView>,
    /// The account to give back and the chat to delete.
    pub cleanup: Option<HeldView>,
}

/// A turn of a run.
pub struct Turn {
    pub mark: Option<Mark>,
    pub events: Vec<UpstreamEvent>,
    pub cleanup: Option<Held>,
}

/// The upstream events of a vector, as mathematical values.
pub open spec fn upstream_views(events: Seq<UpstreamEvent>) -> Seq<UpstreamView> {
    events.map_values(|e: UpstreamEvent| e@)
}

/// The increments of a message, as events.
pub open spec fn delta_views(deltas: Seq<QwenDelta>) -> Seq<UpstreamView> {
    deltas.map_values(|d: QwenDelta| UpstreamView::Delta(d@))
}

/// What comes when the upstream sends no more.
pub enum Closing {
    /// The last message.
    Rest(String),
    /// The end of the run.
    Over(Turn),
}

impl View for Turn {
    type V = TurnView;

    open spec fn view(&self) -> TurnView {
        TurnView {
            mark: opt_mark_view(self.mark),
            events: upstream_views(self.events@),
            cleanup: opt_held_view(self.cleanup),
        }
    }
}

/// What is said when every try has failed.
pub open spec fn exhausted_text(attempts: int, last_error: Option<Seq<char>>) -> Seq<char> {
    "全部 "@ + decimal_of(attempts as nat) + " 次嘗試失敗。最後錯誤: "@ + match last_error {
        Some(e) => e,
        None => "未知"@,
    }
}

impl RunView {
    /// The run at its start.
    pub open spec fn start(params: ParamsView, max_retries: u32) -> RunView {
        RunView {
            params,
            attempts: if params.fixed_account is Some {
                1
            } else {
                match params.max_retries {
                    Some(n) => n as int,
                    None => max_retries as int,
                }
            },
            tried: 0,
            exclude: params.exclude,
            last_error: None,
            held: None,
            stage: Stage::Account,
            first_delta: false,
        }
    }

    /// The next account is tried, or the run is over because enough have been.
    pub open spec fn next_try(self) -> (RunView, Seq<UpstreamView>) {
        if self.tried < self.attempts {
            (RunView { stage: Stage::Account, held: None, first_delta: false, ..self }, Seq::empty())
        } else {
            (
                RunView { stage: Stage::Ended, held: None, ..self },
                seq![UpstreamView::Error(exhausted_text(self.attempts, self.last_error))],
            )
        }
    }

    /// The try has failed before any part of the answer was handed on: the account is marked
    /// and excluded, and the next one is tried.
    pub open spec fn failed_try(self, msg: Seq<char>) -> (RunView, TurnView) {
        let h = self.held->0;
        let (next, events) = RunView {
            tried: self.tried + 1,
            exclude: self.exclude.insert(h.email),
            last_error: Some(msg),
            ..self
        }.next_try();
        (
            next,
            TurnView {
                mark: mark_for(h.email, msg, blame_of(lowercase(msg))),
                events,
                cleanup: self.held,
            },
        )
    }

    /// The run is over.
    pub open spec fn ended(self) -> RunView {
        RunView { stage: Stage::Ended, held: None, ..self }
    }

    /// An account has come, or none.
    pub open spec fn got_account(self, h: Option<HandleView>) -> (RunView, TurnView) {
        match h {
            Some(h) => (
                RunView {
                    held: Some(
                        HeldView {
                            email: h.email,
                            token: h.token,
                            pooled: self.params.fixed_account is None,
                            chat_id: None,
                        },
                    ),
                    stage: Stage::Chat,
                    first_delta: false,
                    ..self
                },
                TurnView { mark: None, events: Seq::empty(), cleanup: None },
            ),
            None => (
                self.ended(),
                TurnView {
                    mark: None,
                    events: seq![
                        UpstreamView::Error(
                            match self.params.fixed_account {
                                Some(email) => "指定帳號不存在: "@ + email,
                                None => match self.last_error {
                                    Some(e) => e,
                                    None => "帳號池無可用帳號（全忙或限流）"@,
                                },
                            },
                        ),
                    ],
                    cleanup: None,
                },
            ),
        }
    }

    /// A chat has come, with whether the run owns it.
    pub open spec fn got_chat(self, chat_id: Seq<char>, owns: bool) -> (RunView, TurnView) {
        let h = self.held->0;
        (
            RunView {
                held: Some(
                    HeldView {
                        chat_id: if owns && self.params.delete_on_close {
                            Some(chat_id)
                        } else {
                            h.chat_id
                        },
                        ..h
                    },
                ),
                stage: Stage::Starting,
                ..self
            },
            TurnView {
                mark: None,
                events: seq![UpstreamView::Meta { chat_id, email: h.email }],
                cleanup: None,
            },
        )
    }

    /// The stream breaks off. Once a part of the answer has been handed on there is no other
    /// try.
    pub open spec fn broke_off(self, err: Seq<char>) -> (RunView, TurnView) {
        if self.first_delta {
            (
                self.ended(),
                TurnView {
                    mark: None,
                    events: seq![UpstreamView::Error(err)],
                    cleanup: self.held,
                },
            )
        } else {
            self.failed_try(err)
        }
    }

    /// A message has come that is no error.
    pub open spec fn got_deltas(self, deltas: Seq<UpstreamView>) -> RunView {
        RunView { first_delta: self.first_delta || deltas.len() > 0, ..self }
    }

    /// A message has come: an error, or increments that are handed on.
    pub open spec fn got_message(
        self,
        error: Option<Seq<char>>,
        deltas: Seq<UpstreamView>,
    ) -> (RunView, TurnView) {
        match error {
            Some(e) => self.broke_off(e),
            None => (
                self.got_deltas(deltas),
                TurnView { mark: None, events: deltas, cleanup: None },
            ),
        }
    }

    /// The last message has come.
    pub open spec fn got_last_message(
        self,
        error: Option<Seq<char>>,
        deltas: Seq<UpstreamView>,
    ) -> (RunView, TurnView) {
        match error {
            Some(e) => self.broke_off(e),
            None => {
                let (run, turn) = self.got_deltas(deltas).completed();
                (run, TurnView { events: deltas + turn.events, ..turn })
            },
        }
    }

    /// The stream is complete.
    pub open spec fn completed(self) -> (RunView, TurnView) {
        let h = self.held->0;
        (
            self.ended(),
            TurnView {
                mark: if h.pooled {
                    Some(MarkView::Success { email: h.email })
                } else {
                    None
                },
                events: seq![UpstreamView::Done],
                cleanup: self.held,
            },
        )
    }
}

/// The run of a request.
pub struct StreamRun {
    pub params: StreamParams,
    pub attempts: u32,
    pub tried: u32,
    pub exclude: EmailSet,
    pub last_error: Option<String>,
    pub held: Option<Held>,
    pub stage: Stage,
    pub first_delta: bool,
    pub framer: Framer,
}

impl View for StreamRun {
    type V = RunView;

    open spec fn view(&self) -> RunView {
        RunView {
            params: self.params@,
            attempts: self.attempts as int,
            tried: self.tried as int,
            exclude: self.exclude@,
            last_error: opt_view(self.last_error),
            held: opt_held_view(self.held),
            stage: self.stage,
            first_delta: self.first_delta,
        }
    }
}

impl RunView {
    /// An account is held exactly between the moment it comes and the end of its try, and no
    /// more accounts are tried than may be.
    pub open spec fn wf(self) -> bool {
        &&& self.held is Some <==> (self.stage == Stage::Chat || self.stage == Stage::Starting
            || self.stage == Stage::Reading)
        &&& 0 <= self.tried <= self.attempts
        &&& self.stage != Stage::Ended ==> self.tried < self.attempts
    }
}

/// How many accounts may be tried, and what is done at the end of a request.
#[derive(Clone, Copy)]
pub struct Executor {
    pub max_retries: u32,
    pub delete_attempts: u32,
    pub delete_delay_ms: u64,
}

impl Executor {
    /// An executor with these limits.
    pub fn new(max_retries: u32, delete_attempts: u32, delete_delay_ms: u64) -> (r: Self)
        ensures
            r.max_retries == max_retries,
            r.delete_attempts == delete_attempts,
            r.delete_delay_ms == delete_delay_ms,
    {
        Executor { max_retries, delete_attempts, delete_delay_ms }
    }

    /// Starts the run of a request.
    pub fn run_stream(&self, params: StreamParams) -> (r: (StreamRun, Turn))
        ensures
            ({
                let (run, events) = RunView::start(params@, self.max_retries).next_try();
                &&& r.0@ == run
                &&& r.1@ == (TurnView { mark: None, events, cleanup: None })
            }),
            r.0@.wf(),
    {
        let attempts: u32 = if params.fixed_account.is_some() {
            1
        } else {
            match params.max_retries {
                Some(n) => n,
                None => self.max_retries,
            }
        };
        let exclude = params.exclude.clone();
        let mut run = StreamRun {
            params,
            attempts,
            tried: 0,
            exclude,
            last_error: None,
            held: None,
            stage: Stage::Account,
            first_delta: false,
            framer: Framer::new(),
        };
        let events = run.next_try();
        (run, Turn { mark: None, events, cleanup: None })
    }
}

impl StreamRun {
    fn next_try(&mut self) -> (r: Vec<UpstreamEvent>)
        ensures
            (final(self)@, upstream_views(r@)) == old(self)@.next_try(),
            final(self).held is None,
    {
        let mut events: Vec<UpstreamEvent> = Vec::new();
        assert(upstream_views(events@) =~= Seq::empty());
        self.held = None;
        if self.tried < self.attempts {
            self.stage = Stage::Account;
            self.first_delta = false;
            self.framer = Framer::new();
            return events;
        }
        self.stage = Stage::Ended;
        let mut m = String::from_str("全部 ");
        m.append(decimal(self.attempts as u64).as_str());
        m.append(" 次嘗試失敗。最後錯誤: ");
        match self.last_error.as_ref() {
            Some(e) => {
                m.append(e.as_str());
            },
            None => {
                m.append("未知");
            },
        }
        let ghost text = m@;
        events.push(UpstreamEvent::Error(m));
        assert(upstream_views(events@) =~= seq![UpstreamView::Error(text)]);
        events
    }

    fn take_held(&mut self) -> (r: Option<Held>)
        ensures
            opt_held_view(r) == old(self)@.held,
            final(self)@ == (RunView { held: None, ..old(self)@ }),
    {
        let mut held: Option<Held> = None;
        core::mem::swap(&mut held, &mut self.held);
        held
    }

    /// Whether the account is fixed, so that its token is wanted; else one of the pool's that
    /// is not excluded.
    pub fn fixed_account(&self) -> (r: Option<String>)
        ensures
            opt_view(r) == self@.params.fixed_account,
    {
        copy_text(&self.params.fixed_account)
    }

    /// An account has come, or none: there is no such account, or none became free in time.
    pub fn on_account(&mut self, handle: Option<AccountHandle>) -> (r: Turn)
        requires
            old(self)@.wf(),
            old(self)@.stage == Stage::Account,
        ensures
            (final(self)@, r@) == old(self)@.got_account(
                crate::pool::acquire::opt_handle_view(handle),
            ),
            final(self)@.wf(),
    {
        let mut events: Vec<UpstreamEvent> = Vec::new();
        assert(upstream_views(events@) =~= Seq::empty());
        match handle {
            Some(h) => {
                self.held = Some(
                    Held {
                        email: h.email,
                        token: h.token,
                        pooled: self.params.fixed_account.is_none(),
                        chat_id: None,
                    },
                );
                self.stage = Stage::Chat;
                self.first_delta = false;
                Turn { mark: None, events, cleanup: None }
            },
            None => {
                let m = match self.params.fixed_account.as_ref() {
                    Some(email) => {
                        let mut m = String::from_str("指定帳號不存在: ");
                        m.append(email.as_str());
                        m
                    },
                    None => match self.last_error.as_ref() {
                        Some(e) => e.clone(),
                        None => String::from_str("帳號池無可用帳號（全忙或限流）"),
                    },
                };
                let ghost text = m@;
                events.push(UpstreamEvent::Error(m));
                assert(upstream_views(events@) =~= seq![UpstreamView::Error(text)]);
                self.stage = Stage::Ended;
                Turn { mark: None, events, cleanup: None }
            },
        }
    }

    /// What to do for the chat, given what the pool of chats has answered.
    pub fn obtain_chat_id(&self, pooled: Pooled) -> (r: ChatStep)
        ensures
            r@ == chat_step(self@.params, pooled@),
    {
        if let Some(id) = self.params.existing_chat_id.as_ref() {
            return ChatStep::Use(id.clone());
        }
        if self.params.use_prewarmed && str_eq(self.params.chat_type.as_str(), "t2t") {
            return match pooled {
                Pooled::NotAsked => ChatStep::AskPool,
                Pooled::Empty => ChatStep::Create,
                Pooled::Chat(id) => ChatStep::Use(id),
            };
        }
        ChatStep::Create
    }

    /// A chat has come. The run owns it unless it was given.
    pub fn on_chat(&mut self, chat_id: String) -> (r: Turn)
        requires
            old(self)@.wf(),
            old(self)@.stage == Stage::Chat,
        ensures
            (final(self)@, r@) == old(self)@.got_chat(
                chat_id@,
                old(self)@.params.existing_chat_id is None,
            ),
            final(self)@.wf(),
    {
        let owns = self.params.existing_chat_id.is_none();
        let mut events: Vec<UpstreamEvent> = Vec::new();
        let ghost id = chat_id@;
        let ghost h0 = self@.held->0;
        if let Some(h) = self.take_held() {
            let email = h.email.clone();
            let kept = if owns && self.params.delete_on_close {
                Some(chat_id.clone())
            } else {
                h.chat_id
            };
            self.held = Some(
                Held { email: h.email, token: h.token, pooled: h.pooled, chat_id: kept },
            );
            events.push(UpstreamEvent::Meta { chat_id, email });
            assert(upstream_views(events@) =~= seq![
                UpstreamView::Meta { chat_id: id, email: h0.email },
            ]);
        }
        self.stage = Stage::Starting;
        Turn { mark: None, events, cleanup: None }
    }

    /// The try has failed: no chat came, or the stream did not start, or it broke off before
    /// any part of the answer.
    fn fail(&mut self, msg: &str) -> (r: Turn)
        requires
            old(self)@.wf(),
            old(self)@.held is Some,
        ensures
            (final(self)@, r@) == old(self)@.failed_try(msg@),
            final(self)@.wf(),
    {
        let mut mark: Option<Mark> = None;
        let held = self.take_held();
        if let Some(h) = held.as_ref() {
            mark = classify_and_mark(h.email.as_str(), msg);
            self.exclude.insert(h.email.clone());
        }
        self.last_error = Some(String::from_str(msg));
        self.tried = self.tried + 1;
        let events = self.next_try();
        Turn { mark, events, cleanup: held }
    }

    /// No chat came.
    pub fn on_chat_failed(&mut self, msg: &str) -> (r: Turn)
        requires
            old(self)@.wf(),
            old(self)@.stage == Stage::Chat,
        ensures
            (final(self)@, r@) == old(self)@.failed_try(msg@),
            final(self)@.wf(),
    {
        self.fail(msg)
    }

    /// The stream did not start.
    pub fn on_start_failed(&mut self, msg: &str) -> (r: Turn)
        requires
            old(self)@.wf(),
            old(self)@.stage == Stage::Starting,
        ensures
            (final(self)@, r@) == old(self)@.failed_try(msg@),
            final(self)@.wf(),
    {
        self.fail(msg)
    }

    /// The stream has started.
    pub fn on_started(&mut self)
        requires
            old(self)@.wf(),
            old(self)@.stage == Stage::Starting,
        ensures
            final(self)@ == (RunView { stage: Stage::Reading, ..old(self)@ }),
            final(self)@.wf(),
            final(self).framer.buffer@ == Seq::<u8>::empty(),
    {
        self.framer = Framer::new();
        self.stage = Stage::Reading;
    }

    /// The stream has broken off, or a message was an error.
    fn on_stream_error(&mut self, err: &str) -> (r: Turn)
        requires
            old(self)@.wf(),
            old(self)@.stage == Stage::Reading,
        ensures
            (final(self)@, r@) == old(self)@.broke_off(err@),
            final(self)@.wf(),
    {
        if self.first_delta {
            let mut events: Vec<UpstreamEvent> = Vec::new();
            events.push(UpstreamEvent::Error(String::from_str(err)));
            assert(upstream_views(events@) =~= seq![UpstreamView::Error(err@)]);
            let held = self.take_held();
            self.stage = Stage::Ended;
            return Turn { mark: None, events, cleanup: held };
        }
        self.fail(err)
    }

    /// The bytes of the stream could not be read.
    pub fn on_read_error(&mut self, error: &str) -> (r: Turn)
        requires
            old(self)@.wf(),
            old(self)@.stage == Stage::Reading,
        ensures
            (final(self)@, r@) == old(self)@.broke_off("串流讀取錯誤: "@ + error@),
            final(self)@.wf(),
    {
        let mut m = String::from_str("串流讀取錯誤: ");
        m.append(error);
        self.on_stream_error(m.as_str())
    }

    /// The increments of a message are handed on.
    fn hand_on(&mut self, deltas: Vec<QwenDelta>) -> (r: Vec<UpstreamEvent>)
        requires
            old(self)@.wf(),
            old(self)@.stage == Stage::Reading,
        ensures
            upstream_views(r@) == delta_views(deltas@),
            final(self)@ == old(self)@.got_deltas(delta_views(deltas@)),
            final(self)@.wf(),
            final(self).framer == old(self).framer,
    {
        let ghost all = deltas@;
        let ghost goal = delta_views(deltas@);
        let mut events: Vec<UpstreamEvent> = Vec::new();
        assert(upstream_views(events@) =~= goal.take(0));
        for d in it: deltas
            invariant
                it.seq() == all,
                goal == delta_views(all),
                events@.len() == it.index(),
                upstream_views(events@) == goal.take(it.index() as int),
        {
            let ghost i = it.index() as int;
            let ghost e0 = events@;
            assert(goal[i] == UpstreamView::Delta(d@));
            events.push(UpstreamEvent::Delta(d));
            assert(upstream_views(events@) =~= upstream_views(e0).push(goal[i]));
            assert(goal.take(i + 1) =~= goal.take(i).push(goal[i]));
        }
        assert(goal.take(goal.len() as int) =~= goal);
        if events.len() > 0 {
            self.first_delta = true;
        }
        events
    }

    /// Bytes of the stream have come.
    pub fn on_bytes(&mut self, chunk: &[u8])
        ensures
            final(self)@ == old(self)@,
            final(self).framer.buffer@ == old(self).framer.buffer@ + chunk@,
    {
        self.framer.feed(chunk);
    }

    /// Cuts off the next message of the stream, where one is complete.
    pub fn next_message(&mut self) -> (r: Option<String>)
        ensures
            final(self)@ == old(self)@,
            match r {
                Some(m) => {
                    &&& frames(old(self).framer.buffer@).len() > 0
                    &&& m@ == utf8_lossy(frames(old(self).framer.buffer@)[0])
                    &&& frames(final(self).framer.buffer@) == frames(
                        old(self).framer.buffer@,
                    ).drop_first()
                    &&& leftover(final(self).framer.buffer@) == leftover(old(self).framer.buffer@)
                },
                None => frames(old(self).framer.buffer@).len() == 0 && final(self).framer.buffer@
                    == old(self).framer.buffer@,
            },
    {
        self.framer.next_message()
    }

    /// A message has come, with the error in it or else its increments.
    pub fn on_message(&mut self, error: Option<String>, deltas: Vec<QwenDelta>) -> (r: Turn)
        requires
            old(self)@.wf(),
            old(self)@.stage == Stage::Reading,
        ensures
            (final(self)@, r@) == old(self)@.got_message(opt_view(error), delta_views(deltas@)),
            final(self)@.wf(),
            error is None ==> final(self).framer == old(self).framer,
    {
        match error {
            Some(e) => self.on_stream_error(e.as_str()),
            None => {
                let events = self.hand_on(deltas);
                Turn { mark: None, events, cleanup: None }
            },
        }
    }

    /// No more bytes come. What is left is the last message; where nothing is, the stream is
    /// complete.
    pub fn on_close(&mut self) -> (r: Closing)
        requires
            old(self)@.wf(),
            old(self)@.stage == Stage::Reading,
        ensures
            final(self)@.wf(),
            match r {
                Closing::Rest(m) => {
                    &&& old(self).framer.buffer@.len() > 0
                    &&& m@ == utf8_lossy(old(self).framer.buffer@)
                    &&& final(self)@ == old(self)@
                    &&& final(self).framer.buffer@ == Seq::<u8>::empty()
                },
                Closing::Over(turn) => {
                    &&& old(self).framer.buffer@.len() == 0
                    &&& (final(self)@, turn@) == old(self)@.completed()
                },
            },
    {
        match self.framer.take_rest() {
            Some(m) => Closing::Rest(m),
            None => Closing::Over(self.on_complete()),
        }
    }

    /// The last message has come, with the error in it or else its increments.
    pub fn on_last_message(&mut self, error: Option<String>, deltas: Vec<QwenDelta>) -> (r: Turn)
        requires
            old(self)@.wf(),
            old(self)@.stage == Stage::Reading,
        ensures
            (final(self)@, r@) == old(self)@.got_last_message(
                opt_view(error),
                delta_views(deltas@),
            ),
            final(self)@.wf(),
    {
        match error {
            Some(e) => self.on_stream_error(e.as_str()),
            None => {
                let mut events = self.hand_on(deltas);
                let ghost e0 = events@;
                let turn = self.on_complete();
                events.push(UpstreamEvent::Done);
                assert(upstream_views(events@) =~= upstream_views(e0) + seq![UpstreamView::Done]);
                Turn { mark: turn.mark, events, cleanup: turn.cleanup }
            },
        }
    }

    fn on_complete(&mut self) -> (r: Turn)
        requires
            old(self)@.wf(),
            old(self)@.stage == Stage::Reading,
        ensures
            (final(self)@, r@) == old(self)@.completed(),
            final(self)@.wf(),
    {
        let mut events: Vec<UpstreamEvent> = Vec::new();
        events.push(UpstreamEvent::Done);
        assert(upstream_views(events@) =~= seq![UpstreamView::Done]);
        let held = self.take_held();
        let mut mark: Option<Mark> = None;
        if let Some(h) = held.as_ref() {
            if h.pooled {
                mark = Some(Mark::Success { email: h.email.clone() });
            }
        }
        self.stage = Stage::Ended;
        Turn { mark, events, cleanup: held }
    }

    /// The client has gone: the run is over, and what it holds has to be cleaned up.
    pub fn abort(&mut self) -> (r: Option<Held>)
        requires
            old(self)@.wf(),
        ensures
            opt_held_view(r) == old(self)@.held,
            final(self)@ == old(self)@.ended(),
            final(self)@.wf(),
    {
        let held = self.take_held();
        self.stage = Stage::Ended;
        held
    }
}

} // verus!
