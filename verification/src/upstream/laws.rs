//! What holds of a run over the accounts, and of the replies of the upstream.

use vstd::prelude::*;
use vstd::string::*;

use super::client::{chat_verdict, clean_proxy, delete_step, signin_verdict, DeleteStep};
use super::digest::{hex_digit, hex_of};
use super::error::ErrorView;
use super::executor::{RunView, Stage, TurnView};
use crate::events::UpstreamView;
use crate::execution::request::ParamsView;
use crate::json::JsonView;
use crate::pool::account_pool::AccountPoolView;
use crate::pool::handle::HandleView;
use crate::pool::laws::lemma_taken_was_free;
use crate::text::{is_white, trimmed, trimmed_end, trimmed_start};

verus! {

/// What has happened to a run.
pub enum RunInput {
    /// An account has come, or none.
    Account(Option<HandleView>),
    Chat(Seq<char>),
    ChatFailed(Seq<char>),
    Started,
    StartFailed(Seq<char>),
    /// A message has come, with the error in it or else its increments.
    Message(Option<Seq<char>>, Seq<UpstreamView>),
    LastMessage(Option<Seq<char>>, Seq<UpstreamView>),
    ReadError(Seq<char>),
    Complete,
    /// The client has gone.
    Abort,
}

impl RunView {
    /// The run waits for this.
    pub open spec fn awaits(self, input: RunInput) -> bool {
        match input {
            RunInput::Account(_) => self.stage == Stage::Account,
            RunInput::Chat(_) => self.stage == Stage::Chat,
            RunInput::ChatFailed(_) => self.stage == Stage::Chat,
            RunInput::Started => self.stage == Stage::Starting,
            RunInput::StartFailed(_) => self.stage == Stage::Starting,
            RunInput::Message(_, _) => self.stage == Stage::Reading,
            RunInput::LastMessage(_, _) => self.stage == Stage::Reading,
            RunInput::ReadError(_) => self.stage == Stage::Reading,
            RunInput::Complete => self.stage == Stage::Reading,
            RunInput::Abort => true,
        }
    }

    /// The run and its turn after something has happened.
    pub open spec fn after(self, input: RunInput) -> (RunView, TurnView) {
        let idle = TurnView { mark: None, events: Seq::empty(), cleanup: None };
        match input {
            RunInput::Account(h) => self.got_account(h),
            RunInput::Chat(id) => self.got_chat(
                id,
                self.params.existing_chat_id is None,
            ),
            RunInput::ChatFailed(m) => self.failed_try(m),
            RunInput::Started => (RunView { stage: Stage::Reading, ..self }, idle),
            RunInput::StartFailed(m) => self.failed_try(m),
            RunInput::Message(e, d) => self.got_message(e, d),
            RunInput::LastMessage(e, d) => self.got_last_message(e, d),
            RunInput::ReadError(e) => self.broke_off("串流讀取錯誤: "@ + e),
            RunInput::Complete => self.completed(),
            RunInput::Abort => (self.ended(), TurnView { cleanup: self.held, ..idle }),
        }
    }
}

/// Whatever happens, the run stays well formed: an account is held exactly while it is tried,
/// and no more accounts are tried than may be. What a run holds is cleaned up exactly when it
/// lets go of it.
pub proof fn lemma_every_step(v: RunView, input: RunInput)
    requires
        v.wf(),
        v.awaits(input),
    ensures
        ({
            let (w, turn) = v.after(input);
            &&& w.wf()
            &&& turn.cleanup == if w.held is None {
                v.held
            } else {
                None
            }
            &&& w.attempts == v.attempts
            &&& v.tried <= w.tried <= v.tried + 1
            &&& v.exclude.subset_of(w.exclude)
        }),
{
}

/// The accounts that have come to a run.
pub open spec fn accounts_taken(inputs: Seq<RunInput>) -> int
    decreases inputs.len(),
{
    if inputs.len() == 0 {
        0
    } else {
        accounts_taken(inputs.drop_last()) + if inputs.last() matches RunInput::Account(Some(_)) {
            1int
        } else {
            0
        }
    }
}

impl RunView {
    /// The run after all this has happened.
    pub open spec fn after_all(self, inputs: Seq<RunInput>) -> RunView
        decreases inputs.len(),
    {
        if inputs.len() == 0 {
            self
        } else {
            self.after_all(inputs.drop_last()).after(inputs.last()).0
        }
    }

    /// Everything happened when the run waited for it.
    pub open spec fn can_happen(self, inputs: Seq<RunInput>) -> bool
        decreases inputs.len(),
    {
        inputs.len() == 0 || (self.can_happen(inputs.drop_last()) && self.after_all(
            inputs.drop_last(),
        ).awaits(inputs.last()))
    }

    /// How often the run has had something cleaned up.
    pub open spec fn cleanups(self, inputs: Seq<RunInput>) -> int
        decreases inputs.len(),
    {
        if inputs.len() == 0 {
            0
        } else {
            self.cleanups(inputs.drop_last()) + if self.after_all(inputs.drop_last()).after(
                inputs.last(),
            ).1.cleanup is Some {
                1int
            } else {
                0
            }
        }
    }
}

/// Every account that comes to a run is cleaned up exactly once, however the run goes: as soon
/// as none is held, as many cleanups as accounts have been. No more accounts come than may be
/// tried.
pub proof fn lemma_every_account_is_cleaned_up_once(v: RunView, inputs: Seq<RunInput>)
    requires
        v.wf(),
        v.held is None,
        v.tried == 0,
        v.can_happen(inputs),
    ensures
        ({
            let w = v.after_all(inputs);
            &&& w.wf()
            &&& accounts_taken(inputs) == v.cleanups(inputs) + if w.held is Some {
                1int
            } else {
                0
            }
            &&& w.stage == Stage::Ended ==> accounts_taken(inputs) == v.cleanups(inputs)
            &&& w.attempts == v.attempts
            &&& accounts_taken(inputs) <= w.tried + 1
            &&& w.stage == Stage::Account ==> accounts_taken(inputs) <= w.tried
            &&& accounts_taken(inputs) <= v.attempts
        }),
    decreases inputs.len(),
{
    if inputs.len() > 0 {
        lemma_every_account_is_cleaned_up_once(v, inputs.drop_last());
        lemma_every_step(v.after_all(inputs.drop_last()), inputs.last());
    }
}

/// An account that has failed is not asked for again in the same run, and its error is the one
/// that is remembered.
pub proof fn lemma_failed_account_is_excluded(v: RunView, msg: Seq<char>)
    requires
        v.wf(),
        v.held is Some,
    ensures
        v.failed_try(msg).0.exclude.contains(v.held->0.email),
        v.failed_try(msg).0.last_error == Some(msg),
        v.failed_try(msg).0.tried == v.tried + 1,
{
}

/// Another try is another account: the pool does not hand out one that has failed in this run.
pub proof fn lemma_retry_takes_another_account(
    v: RunView,
    msg: Seq<char>,
    pool: AccountPoolView,
    now: int,
    jitter_ms: int,
)
    requires
        v.wf(),
        v.held is Some,
        pool.current(now),
    ensures
        pool.taking(None, v.failed_try(msg).0.exclude, now, jitter_ms).1 matches Some(h) ==> h.email
            != v.held->0.email,
{
    let exclude = v.failed_try(msg).0.exclude;
    lemma_failed_account_is_excluded(v, msg);
    lemma_taken_was_free(pool, None, exclude, now, jitter_ms);
    let (after, h) = pool.taking(None, exclude, now, jitter_ms);
    if h is Some {
        let i = choose|i: int| #[trigger] pool.took(i, exclude, now, jitter_ms, after, h->0);
        assert(pool.free(i, exclude, now));
    }
}

/// Once a part of the answer has been handed on, an error is handed on too and ends the run:
/// the answer does not start again on another account.
pub proof fn lemma_no_retry_after_first_part(v: RunView, err: Seq<char>)
    requires
        v.wf(),
        v.stage == Stage::Reading,
        v.first_delta,
    ensures
        v.broke_off(err).0.stage == Stage::Ended,
        v.broke_off(err).1.events == seq![UpstreamView::Error(err)],
        v.broke_off(err).1.mark is None,
{
}

/// A run that ends by itself tells so, with `Done` or with an error as its last event.
pub proof fn lemma_end_is_told(v: RunView, input: RunInput)
    requires
        v.wf(),
        v.awaits(input),
        v.stage != Stage::Ended,
        !(input is Abort),
    ensures
        ({
            let (w, turn) = v.after(input);
            w.stage == Stage::Ended ==> turn.events.len() > 0 && (turn.events.last()
                == UpstreamView::Done || turn.events.last() is Error)
        }),
{
}

/// An account that was fixed is never given back to the pool nor marked as successful, and a
/// chat that was given is never deleted.
pub proof fn lemma_fixed_account_and_chat(v: RunView, h: HandleView, chat_id: Seq<char>)
    requires
        v.wf(),
        v.stage == Stage::Account,
    ensures
        ({
            let w = v.got_account(Some(h)).0;
            let x = w.after(RunInput::Chat(chat_id)).0;
            &&& w.held->0.pooled == (v.params.fixed_account is None)
            &&& x.held->0.chat_id is Some <==> v.params.existing_chat_id is None
                && v.params.delete_on_close
            &&& v.params.fixed_account is Some ==> x.completed().1.mark is None
        }),
{
}

/// A fixed account is tried once.
pub proof fn lemma_fixed_account_is_tried_once(params: ParamsView, max_retries: u32)
    requires
        params.fixed_account is Some,
    ensures
        RunView::start(params, max_retries).attempts == 1,
{
}

/// A sign-in is refused for the account exactly on the statuses that say so, and a token comes
/// only with a success.
pub proof fn lemma_signin(status: u16, text: Seq<char>, parsed: Result<JsonView, Seq<char>>)
    ensures
        (signin_verdict(status, text, parsed) matches Err(ErrorView::Unauthorized(_))) <==> (status
            == 400 || status == 401 || status == 403),
        signin_verdict(status, text, parsed) matches Ok(t) ==> status == 200 && parsed is Ok
            && t.len() > 0,
{
}

/// A chat comes only with a success that the upstream confirms.
pub proof fn lemma_chat_is_confirmed(
    status: u16,
    text: Seq<char>,
    lower: Seq<char>,
    parsed: Result<JsonView, Seq<char>>,
)
    ensures
        chat_verdict(status, text, lower, parsed) is Ok ==> status == 200 && parsed is Ok
            && parsed->Ok_0.field("success"@) == Some(JsonView::Bool(true)),
        status == 401 || status == 403 ==> (chat_verdict(status, text, lower, parsed) matches Err(
            ErrorView::Unauthorized(_),
        )),
{
}

/// Deleting a chat takes so many attempts at most, at least one, and the sleeps between them
/// grow.
pub proof fn lemma_delete_attempts(attempts: u32, delay_ms: u64, attempt: u32, next: u32)
    ensures
        attempt >= attempts && attempt >= 1 ==> !(delete_step(
            attempts,
            delay_ms,
            attempt,
            false,
        ) is Retry),
        attempt < attempts ==> delete_step(attempts, delay_ms, attempt, false) is Retry,
        attempt <= next < attempts ==> delete_step(attempts, delay_ms, attempt, false)->sleep_ms
            <= delete_step(attempts, delay_ms, next, false)->sleep_ms,
        delete_step(attempts, delay_ms, attempt, true) == DeleteStep::Done,
{
    if attempt <= next < attempts {
        assert(0 <= delay_ms * attempt <= delay_ms * next <= u64::MAX * u32::MAX)
            by (nonlinear_arith)
            requires
                0 <= delay_ms <= u64::MAX,
                0 <= attempt <= next <= u32::MAX,
        ;
    }
}

proof fn lemma_trimmed_start_clean(s: Seq<char>)
    ensures
        trimmed_start(s).len() == 0 || !is_white(trimmed_start(s)[0]),
    decreases s.len(),
{
    if s.len() > 0 && is_white(s[0]) {
        lemma_trimmed_start_clean(s.drop_first());
    }
}

proof fn lemma_trimmed_end_clean(s: Seq<char>)
    ensures
        trimmed_end(s).len() == 0 || !is_white(trimmed_end(s).last()),
        trimmed_end(s).is_prefix_of(s),
    decreases s.len(),
{
    if s.len() > 0 && is_white(s.last()) {
        lemma_trimmed_end_clean(s.drop_last());
        let t = trimmed_end(s.drop_last());
        assert(t.is_prefix_of(s.drop_last()));
        assert(s.take(t.len() as int) =~= s.drop_last().take(t.len() as int));
    }
}

/// A proxy that has been cleaned is clean: to clean it again changes nothing.
pub proof fn lemma_proxy_is_clean(proxy: Option<Seq<char>>)
    ensures
        clean_proxy(clean_proxy(proxy)) == clean_proxy(proxy),
{
    if let Some(p) = proxy {
        let t = trimmed(p);
        lemma_trimmed_start_clean(p);
        lemma_trimmed_end_clean(trimmed_start(p));
        if t.len() > 0 {
            assert(t[0] == trimmed_start(p)[0]);
            assert(trimmed_start(t) == t);
            assert(trimmed_end(t) == t);
        }
    }
}

/// A digest in hexadecimal holds two digits for each byte, and two digests that differ differ
/// in hexadecimal too.
pub proof fn lemma_hex_is_faithful(a: Seq<u8>, b: Seq<u8>)
    ensures
        hex_of(a).len() == 2 * a.len(),
        hex_of(a) == hex_of(b) ==> a == b,
{
    if hex_of(a) == hex_of(b) {
        assert(a.len() == b.len());
        assert forall|i: int| 0 <= i < a.len() implies a[i] == b[i] by {
            let x = hex_of(a);
            let y = hex_of(b);
            assert(x[2 * i] == y[2 * i] && x[2 * i + 1] == y[2 * i + 1]);
            assert((2 * i) / 2 == i && (2 * i) % 2 == 0);
            assert((2 * i + 1) / 2 == i && (2 * i + 1) % 2 == 1);
            lemma_hex_digit(a[i] as int / 16, b[i] as int / 16);
            lemma_hex_digit(a[i] as int % 16, b[i] as int % 16);
        }
        assert(a =~= b);
    }
}

proof fn lemma_hex_digit(c: int, d: int)
    requires
        0 <= c < 16,
        0 <= d < 16,
    ensures
        hex_digit(c) == hex_digit(d) ==> c == d,
{
}

} // verus!
