//! What each step of a run does, and what stays the same over all of it.

use vstd::prelude::*;
use vstd::string::*;

use super::executor::{
    chat_step, classify_and_mark, opt_held_view, opt_mark_view, ChatStep, ChatStepView, Closing,
    Executor, Held, HeldView, Mark, MarkView, Pooled, PooledView, RunView, Stage, StreamRun, Turn,
    ACQUIRE_TIMEOUT,
};
use super::frames::{frames, lemma_cutting_loses_nothing};
use super::laws::RunInput;
use crate::events::{QwenDelta, UpstreamView};
use crate::execution::request::{ParamsView, StreamParams};
use crate::pool::account_pool::AccountPoolView;
use crate::pool::acquire::opt_handle_view;
use crate::pool::effect_laws::lemma_taking_effect;
use crate::pool::handle::{AccountHandle, HandleView};
use crate::text::{decimal_of, lowercase, opt_view, utf8_lossy};
use crate::text_laws::{holds, lemma_holds};

verus! {

/// A run starts with what was asked: with the accounts excluded that must not serve, and none held.
/// It may try one account where one is fixed, else as many as the request says, else as many as
/// the executor does. It waits for an account, or is over at once where it may try none.
pub proof fn lemma_run_starts(
    executor: &Executor,
    params: StreamParams,
    r: (StreamRun, Turn),
)
    requires
        call_ensures(Executor::run_stream, (executor, params), r),
    ensures
        r.0@.params == params@,
        r.0@.exclude == params@.exclude,
        r.0@.tried == 0,
        r.0@.held is None,
        r.0@.last_error is None,
        !r.0@.first_delta,
        params.fixed_account is Some ==> r.0@.attempts == 1,
        params.fixed_account is None && params.max_retries is Some ==> r.0@.attempts
            == params.max_retries->0,
        params.fixed_account is None && params.max_retries is None ==> r.0@.attempts
            == executor.max_retries,
        r.0@.attempts > 0 ==> r.0@.stage == Stage::Account && r.1@.events.len() == 0,
        r.0@.attempts == 0 ==> r.0@.stage == Stage::Ended && r.1@.events == seq![
            UpstreamView::Error("全部 "@ + decimal_of(0) + " 次嘗試失敗。最後錯誤: "@ + "未知"@),
        ],
        r.1@.mark is None,
        r.1@.cleanup is None,
{
}

/// Whoever must not serve a request does not serve it: the accounts that it excludes stay excluded
/// whatever happens in its run.
pub proof fn lemma_excluded_stays_excluded(
    params: ParamsView,
    max_retries: u32,
    inputs: Seq<RunInput>,
)
    ensures
        params.exclude.subset_of(RunView::start(params, max_retries).exclude),
        params.exclude.subset_of(
            RunView::start(params, max_retries).next_try().0.after_all(inputs).exclude,
        ),
    decreases inputs.len(),
{
    if inputs.len() > 0 {
        lemma_excluded_stays_excluded(params, max_retries, inputs.drop_last());
    }
}

/// The pool never hands a run an account that its request excludes.
pub proof fn lemma_excluded_is_not_handed_out(
    executor: &Executor,
    params: StreamParams,
    r: (StreamRun, Turn),
    inputs: Seq<RunInput>,
    pool: AccountPoolView,
    preferred: Option<Seq<char>>,
    now: u64,
    jitter_ms: u64,
)
    requires
        call_ensures(Executor::run_stream, (executor, params), r),
        pool.current(now as int),
    ensures
        ({
            let run = r.0@.after_all(inputs);
            let (_, h) = pool.taking(preferred, run.exclude, now as int, jitter_ms as int);
            h matches Some(h) ==> !params@.exclude.contains(h.email)
        }),
{
    let run = r.0@.after_all(inputs);
    lemma_excluded_stays_excluded(params@, executor.max_retries, inputs);
    assert(r.0@ == RunView::start(params@, executor.max_retries).next_try().0);
    lemma_taking_effect(pool, preferred, run.exclude, now, jitter_ms);
    let (_, h) = pool.taking(preferred, run.exclude, now as int, jitter_ms as int);
    if h is Some {
        assert(!run.exclude.contains(h->0.email));
    }
}

/// What is asked, and how often it may be tried, does not change during a run.
pub proof fn lemma_request_stays(v: RunView, input: RunInput)
    ensures
        v.after(input).0.params == v.params,
        v.after(input).0.attempts == v.attempts,
{
}

/// What an account that comes is to the run: its address and its token, to be given back where it
/// is one of the pool's, with no chat yet. Where none comes, the run is over and says why.
pub proof fn lemma_account_effect(v: RunView, h: HandleView)
    ensures
        ({
            let (w, turn) = v.after(RunInput::Account(Some(h)));
            &&& w.stage == Stage::Chat
            &&& w.held == Some(
                HeldView {
                    email: h.email,
                    token: h.token,
                    pooled: v.params.fixed_account is None,
                    chat_id: None,
                },
            )
            &&& !w.first_delta
            &&& w.exclude == v.exclude
            &&& w.tried == v.tried
            &&& w.last_error == v.last_error
            &&& turn.events.len() == 0
            &&& turn.mark is None
            &&& turn.cleanup is None
        }),
        ({
            let (w, turn) = v.after(RunInput::Account(None));
            &&& w.stage == Stage::Ended
            &&& w.held is None
            &&& turn.mark is None
            &&& turn.cleanup is None
            &&& v.params.fixed_account matches Some(e) ==> turn.events == seq![
                UpstreamView::Error("指定帳號不存在: "@ + e),
            ]
            &&& v.params.fixed_account is None && v.last_error is Some ==> turn.events == seq![
                UpstreamView::Error(v.last_error->0),
            ]
            &&& v.params.fixed_account is None && v.last_error is None ==> turn.events == seq![
                UpstreamView::Error("帳號池無可用帳號（全忙或限流）"@),
            ]
        }),
{
}

/// A chat that comes is announced with the account. It is to be deleted afterwards where the run
/// has not been given it and the request wants that.
pub proof fn lemma_chat_effect(v: RunView, chat_id: Seq<char>)
    requires
        v.held is Some,
        v.held->0.chat_id is None,
    ensures
        ({
            let (w, turn) = v.after(RunInput::Chat(chat_id));
            let h = v.held->0;
            &&& w.stage == Stage::Starting
            &&& turn.events == seq![UpstreamView::Meta { chat_id, email: h.email }]
            &&& turn.mark is None
            &&& turn.cleanup is None
            &&& w.held is Some
            &&& w.held->0.email == h.email
            &&& w.held->0.token == h.token
            &&& w.held->0.pooled == h.pooled
            &&& v.params.existing_chat_id is None && v.params.delete_on_close
                ==> w.held->0.chat_id == Some(chat_id)
            &&& v.params.existing_chat_id is Some || !v.params.delete_on_close
                ==> w.held->0.chat_id is None
            &&& w.exclude == v.exclude
            &&& w.tried == v.tried
            &&& w.first_delta == v.first_delta
        }),
        v.after(RunInput::Started).0 == (RunView { stage: Stage::Reading, ..v }),
        v.after(RunInput::Started).1.events.len() == 0,
        v.after(RunInput::Started).1.cleanup is None,
        v.after(RunInput::Started).1.mark is None,
{
}

/// What an error has noted of the account: a rate limit where it speaks of one; otherwise, where
/// it speaks of a refusal, that the account waits for its activation or was turned away; otherwise
/// nothing.
pub open spec fn is_mark_for(email: Seq<char>, err: Seq<char>, mark: Option<MarkView>) -> bool {
    let e = lowercase(err);
    let limited = holds(e, "429"@) || holds(e, "rate limit"@) || holds(e, "ratelimited"@) || holds(
        e,
        "too many"@,
    ) || holds(e, "upper limit"@) || holds(e, "today's usage"@);
    let refused = holds(e, "unauthorized"@) || holds(e, "401"@) || holds(e, "403"@);
    let waits = holds(e, "activation"@) || holds(e, "pending"@);
    &&& limited ==> mark == Some(MarkView::RateLimited { email })
    &&& !limited && refused && waits ==> mark == Some(
        MarkView::Invalid { email, reason: "pending_activation"@, err },
    )
    &&& !limited && refused && !waits ==> mark == Some(
        MarkView::Invalid { email, reason: "auth_error"@, err },
    )
    &&& !limited && !refused ==> mark is None
}

proof fn lemma_mark(email: Seq<char>, err: Seq<char>)
    ensures
        is_mark_for(
            email,
            err,
            super::executor::mark_for(email, err, super::executor::blame_of(lowercase(err))),
        ),
{
    let e = lowercase(err);
    lemma_holds(e, "429"@);
    lemma_holds(e, "rate limit"@);
    lemma_holds(e, "ratelimited"@);
    lemma_holds(e, "too many"@);
    lemma_holds(e, "upper limit"@);
    lemma_holds(e, "today's usage"@);
    lemma_holds(e, "unauthorized"@);
    lemma_holds(e, "401"@);
    lemma_holds(e, "403"@);
    lemma_holds(e, "activation"@);
    lemma_holds(e, "pending"@);
}

/// The try on the held account has failed with an error: the account is marked, given back and
/// excluded, and the error is remembered. The next account is waited for, or the run is over and
/// says so, where as many have been tried as may be.
pub open spec fn is_failed_try(v: RunView, err: Seq<char>, input: RunInput) -> bool {
    let (w, turn) = v.after(input);
    let email = v.held->0.email;
    &&& is_mark_for(email, err, turn.mark)
    &&& turn.cleanup == v.held
    &&& w.held is None
    &&& w.exclude == v.exclude.insert(email)
    &&& w.tried == v.tried + 1
    &&& w.last_error == Some(err)
    &&& v.tried + 1 < v.attempts ==> w.stage == Stage::Account && turn.events.len() == 0
        && !w.first_delta
    &&& v.tried + 1 >= v.attempts ==> w.stage == Stage::Ended && turn.events == seq![
        UpstreamView::Error(
            "全部 "@ + decimal_of(v.attempts as nat) + " 次嘗試失敗。最後錯誤: "@ + err,
        ),
    ]
}

/// A try fails where there is no chat, where the stream does not start, and where it breaks off
/// before any part of the answer was handed on.
pub proof fn lemma_failure_of_a_try(v: RunView, err: Seq<char>, deltas: Seq<UpstreamView>)
    requires
        v.held is Some,
    ensures
        is_failed_try(v, err, RunInput::ChatFailed(err)),
        is_failed_try(v, err, RunInput::StartFailed(err)),
        !v.first_delta ==> is_failed_try(v, err, RunInput::Message(Some(err), deltas)),
        !v.first_delta ==> is_failed_try(v, err, RunInput::LastMessage(Some(err), deltas)),
        !v.first_delta ==> is_failed_try(
            v,
            "串流讀取錯誤: "@ + err,
            RunInput::ReadError(err),
        ),
{
    lemma_mark(v.held->0.email, err);
    lemma_mark(v.held->0.email, "串流讀取錯誤: "@ + err);
}

/// Once a part of the answer was handed on, an error is handed on and ends the run; the account is
/// given back unmarked.
pub proof fn lemma_failure_half_way(v: RunView, err: Seq<char>, deltas: Seq<UpstreamView>)
    requires
        v.first_delta,
    ensures
        ({
            let (w, turn) = v.after(RunInput::Message(Some(err), deltas));
            &&& w.stage == Stage::Ended && w.held is None && w.exclude == v.exclude
            &&& turn.events == seq![UpstreamView::Error(err)] && turn.mark is None && turn.cleanup
                == v.held
        }),
        ({
            let (w, turn) = v.after(RunInput::LastMessage(Some(err), deltas));
            &&& w.stage == Stage::Ended && w.held is None && w.exclude == v.exclude
            &&& turn.events == seq![UpstreamView::Error(err)] && turn.mark is None && turn.cleanup
                == v.held
        }),
        ({
            let (w, turn) = v.after(RunInput::ReadError(err));
            &&& w.stage == Stage::Ended && w.held is None && w.exclude == v.exclude
            &&& turn.events == seq![UpstreamView::Error("串流讀取錯誤: "@ + err)] && turn.mark is None
                && turn.cleanup == v.held
        }),
{
}

/// The increments of a message are handed on as they are. From the first on, part of the answer
/// has been handed on.
pub proof fn lemma_increments_are_handed_on(v: RunView, deltas: Seq<UpstreamView>)
    ensures
        ({
            let (w, turn) = v.after(RunInput::Message(None, deltas));
            &&& turn.events == deltas
            &&& turn.mark is None
            &&& turn.cleanup is None
            &&& deltas.len() > 0 ==> w.first_delta
            &&& deltas.len() == 0 ==> w.first_delta == v.first_delta
            &&& w == RunView { first_delta: w.first_delta, ..v }
        }),
{
}

/// A complete answer ends the run: what is left is handed on, then the end is told. An account of
/// the pool has succeeded; the held account is given back with its chat.
pub proof fn lemma_completion_effect(v: RunView, deltas: Seq<UpstreamView>)
    requires
        v.held is Some,
    ensures
        ({
            let (w, turn) = v.after(RunInput::Complete);
            let h = v.held->0;
            &&& w.stage == Stage::Ended
            &&& w.held is None
            &&& w.exclude == v.exclude
            &&& turn.events == seq![UpstreamView::Done]
            &&& turn.cleanup == Some(h)
            &&& h.pooled ==> turn.mark == Some(MarkView::Success { email: h.email })
            &&& !h.pooled ==> turn.mark is None
        }),
        ({
            let (w, turn) = v.after(RunInput::LastMessage(None, deltas));
            let h = v.held->0;
            &&& w.stage == Stage::Ended
            &&& w.held is None
            &&& w.exclude == v.exclude
            &&& turn.events == deltas.push(UpstreamView::Done)
            &&& turn.cleanup == Some(h)
            &&& h.pooled ==> turn.mark == Some(MarkView::Success { email: h.email })
            &&& !h.pooled ==> turn.mark is None
        }),
        ({
            let (w, turn) = v.after(RunInput::Abort);
            &&& w.stage == Stage::Ended
            &&& w.held is None
            &&& turn.events.len() == 0
            &&& turn.mark is None
            &&& turn.cleanup == v.held
        }),
{
    assert(deltas + seq![UpstreamView::Done] =~= deltas.push(UpstreamView::Done));
}

/// Which chat serves: one that is given; otherwise, for a text that allows it, one that was created
/// in advance, for which the pool of chats is asked first; otherwise a new one.
pub proof fn lemma_which_chat(p: ParamsView, id: Seq<char>)
    ensures
        forall|pooled: PooledView|
            p.existing_chat_id == Some(id) ==> #[trigger] chat_step(p, pooled) == ChatStepView::Use(
                id,
            ),
        p.existing_chat_id is None && p.use_prewarmed && p.chat_type == "t2t"@ ==> chat_step(
            p,
            PooledView::NotAsked,
        ) == ChatStepView::AskPool,
        p.existing_chat_id is None && p.use_prewarmed && p.chat_type == "t2t"@ ==> chat_step(
            p,
            PooledView::Chat(id),
        ) == ChatStepView::Use(id),
        p.existing_chat_id is None ==> chat_step(p, PooledView::Empty) == ChatStepView::Create,
        forall|pooled: PooledView|
            p.existing_chat_id is None && (!p.use_prewarmed || p.chat_type != "t2t"@)
                ==> #[trigger] chat_step(p, pooled) == ChatStepView::Create,
{
}

/// An account that comes, or does not, is that input to the run.
pub proof fn lemma_on_account_call(run: &mut StreamRun, handle: Option<AccountHandle>, r: Turn)
    requires
        call_ensures(StreamRun::on_account, (run, handle), r),
    ensures
        (final(run)@, r@) == old(run)@.after(RunInput::Account(opt_handle_view(handle))),
{
}

/// A chat that comes is that input to the run.
pub proof fn lemma_on_chat_call(run: &mut StreamRun, chat_id: String, r: Turn)
    requires
        call_ensures(StreamRun::on_chat, (run, chat_id), r),
    ensures
        (final(run)@, r@) == old(run)@.after(RunInput::Chat(chat_id@)),
{
}

/// A chat that could not be had is that input to the run.
pub proof fn lemma_on_chat_failed_call(run: &mut StreamRun, msg: &str, r: Turn)
    requires
        call_ensures(StreamRun::on_chat_failed, (run, msg), r),
    ensures
        (final(run)@, r@) == old(run)@.after(RunInput::ChatFailed(msg@)),
{
}

/// A stream that does not start is that input to the run.
pub proof fn lemma_on_start_failed_call(run: &mut StreamRun, msg: &str, r: Turn)
    requires
        call_ensures(StreamRun::on_start_failed, (run, msg), r),
    ensures
        (final(run)@, r@) == old(run)@.after(RunInput::StartFailed(msg@)),
{
}

/// A stream that starts is that input to the run, and nothing of it has been read.
pub proof fn lemma_on_started_call(run: &mut StreamRun)
    requires
        call_ensures(StreamRun::on_started, (run,), ()),
    ensures
        final(run)@ == old(run)@.after(RunInput::Started).0,
        final(run).framer.buffer@.len() == 0,
{
}

/// A message is that input to the run, with all of its increments.
pub proof fn lemma_on_message_call(
    run: &mut StreamRun,
    error: Option<String>,
    deltas: Vec<QwenDelta>,
    r: Turn,
)
    requires
        call_ensures(StreamRun::on_message, (run, error, deltas), r),
    ensures
        (final(run)@, r@) == old(run)@.after(
            RunInput::Message(
                opt_view(error),
                deltas@.map_values(|d: QwenDelta| UpstreamView::Delta(d@)),
            ),
        ),
{
}

/// The last message is that input to the run, with all of its increments.
pub proof fn lemma_on_last_message_call(
    run: &mut StreamRun,
    error: Option<String>,
    deltas: Vec<QwenDelta>,
    r: Turn,
)
    requires
        call_ensures(StreamRun::on_last_message, (run, error, deltas), r),
    ensures
        (final(run)@, r@) == old(run)@.after(
            RunInput::LastMessage(
                opt_view(error),
                deltas@.map_values(|d: QwenDelta| UpstreamView::Delta(d@)),
            ),
        ),
{
}

/// A stream that cannot be read further is that input to the run.
pub proof fn lemma_on_read_error_call(run: &mut StreamRun, error: &str, r: Turn)
    requires
        call_ensures(StreamRun::on_read_error, (run, error), r),
    ensures
        (final(run)@, r@) == old(run)@.after(RunInput::ReadError(error@)),
{
}

/// The end of the stream: what is left over is the last message, and where nothing is, the run is
/// complete.
pub proof fn lemma_on_close_call(run: &mut StreamRun, r: Closing)
    requires
        call_ensures(StreamRun::on_close, (run,), r),
    ensures
        r is Rest <==> old(run).framer.buffer@.len() > 0,
        r matches Closing::Rest(m) ==> m@ == utf8_lossy(old(run).framer.buffer@) && final(run)@
            == old(run)@ && final(run).framer.buffer@.len() == 0,
        r matches Closing::Over(turn) ==> (final(run)@, turn@) == old(run)@.after(
            RunInput::Complete,
        ),
{
}

/// A run that is given up is over, and hands back what it held.
pub proof fn lemma_abort_call(run: &mut StreamRun, r: Option<Held>)
    requires
        call_ensures(StreamRun::abort, (run,), r),
    ensures
        final(run)@ == old(run)@.after(RunInput::Abort).0,
        opt_held_view(r) == old(run)@.held,
{
}

/// The bytes that come are kept in order after those that are there.
pub proof fn lemma_on_bytes_call(run: &mut StreamRun, chunk: &[u8])
    requires
        call_ensures(StreamRun::on_bytes, (run, chunk), ()),
    ensures
        final(run)@ == old(run)@,
        final(run).framer.buffer@ == old(run).framer.buffer@ + chunk@,
{
}

/// The next message is the first that is complete; with the rest it makes up what was there.
pub proof fn lemma_next_message_call(run: &mut StreamRun, r: Option<String>)
    requires
        call_ensures(StreamRun::next_message, (run,), r),
    ensures
        final(run)@ == old(run)@,
        r is Some <==> frames(old(run).framer.buffer@).len() > 0,
        r matches Some(m) ==> m@ == utf8_lossy(frames(old(run).framer.buffer@)[0])
            && old(run).framer.buffer@ == frames(old(run).framer.buffer@)[0] + seq![10u8, 10u8]
            + final(run).framer.buffer@,
        r is None ==> final(run).framer.buffer@ == old(run).framer.buffer@,
{
    let before = old(run).framer.buffer@;
    let after = final(run).framer.buffer@;
    if r is Some {
        lemma_cutting_loses_nothing(before);
        lemma_cutting_loses_nothing(after);
        let all = frames(before);
        assert(all.drop_first() =~= frames(after));
        assert(before =~= all[0] + seq![10u8, 10u8] + after);
    }
}

/// The chat that serves is decided by the request and by what the pool of chats has answered.
pub proof fn lemma_obtain_chat_id_call(run: &StreamRun, pooled: Pooled, r: ChatStep)
    requires
        call_ensures(StreamRun::obtain_chat_id, (run, pooled), r),
    ensures
        r@ == chat_step(run@.params, pooled@),
{
}

/// What an error has noted of an account is decided by its words.
pub proof fn lemma_classify_and_mark_call(email: &str, err: &str, r: Option<Mark>)
    requires
        call_ensures(classify_and_mark, (email, err), r),
    ensures
        is_mark_for(email@, err@, opt_mark_view(r)),
{
    lemma_mark(email@, err@);
}

/// An executor has the limits that it was given.
pub proof fn lemma_executor_call(
    max_retries: u32,
    delete_attempts: u32,
    delete_delay_ms: u64,
    r: Executor,
)
    requires
        call_ensures(Executor::new, (max_retries, delete_attempts, delete_delay_ms), r),
    ensures
        r.max_retries == max_retries,
        r.delete_attempts == delete_attempts,
        r.delete_delay_ms == delete_delay_ms,
        ACQUIRE_TIMEOUT == 60_000_000,
{
}

} // verus!
