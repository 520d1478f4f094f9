//! Each method of the pool performs its operation, and reports what the pool holds.

use vstd::prelude::*;
use vstd::string::*;

use super::account_pool::{AccountPool, AccountPoolView, PoolSettings};
use super::acquire::opt_handle_view;
use super::handle::AccountHandle;
use super::laws::PoolOp;
use super::listing_laws::{lemma_report, lemma_summary, lemma_usable_pairs, works};
use super::outcome_laws::lemma_stands_for;
use super::report::{AccountStatus, PoolStatus};
use super::wait::{WaitPhase, WaitStep, WaitStepView};
use crate::account::{Account, AccountView};
use crate::email_set::EmailSet;
use crate::text::{opt_str_view, opt_view};

verus! {

/// Loading makes the pool of the accounts that are given.
pub proof fn lemma_load_call(settings: &PoolSettings, accounts: Vec<Account>, now: u64, r: AccountPool)
    requires
        call_ensures(AccountPool::load, (settings, accounts, now), r),
    ensures
        r@ == AccountPoolView::loaded(
            *settings,
            accounts@.map_values(|a: Account| a@),
            now as int,
        ),
{
}

/// Taking an account performs that operation and hands out what it gives.
pub proof fn lemma_acquire_call(
    pool: &mut AccountPool,
    preferred: Option<&str>,
    exclude: &EmailSet,
    now: u64,
    jitter_ms: u64,
    r: Option<AccountHandle>,
)
    requires
        call_ensures(AccountPool::acquire, (pool, preferred, exclude, now, jitter_ms), r),
    ensures
        final(pool)@ == old(pool)@.after(
            PoolOp::Acquire {
                preferred: opt_str_view(preferred),
                exclude: exclude@,
                jitter_ms: jitter_ms as int,
            },
            now as int,
        ),
        (final(pool)@.state, opt_handle_view(r)) == old(pool)@.taking(
            opt_str_view(preferred),
            exclude@,
            now as int,
            jitter_ms as int,
        ),
{
}

/// Giving an account back performs that operation.
pub proof fn lemma_release_call(pool: &mut AccountPool, email: &str, now: u64)
    requires
        call_ensures(AccountPool::release, (pool, email, now), ()),
    ensures
        final(pool)@ == old(pool)@.after(PoolOp::Release { email: email@ }, now as int),
{
}

/// Noting a rate limit performs that operation.
pub proof fn lemma_mark_rate_limited_call(
    pool: &mut AccountPool,
    email: &str,
    jitter_ms: u64,
    now: u64,
)
    requires
        call_ensures(AccountPool::mark_rate_limited, (pool, email, jitter_ms, now), ()),
    ensures
        final(pool)@ == old(pool)@.after(
            PoolOp::MarkRateLimited { email: email@, jitter_ms: jitter_ms as int },
            now as int,
        ),
{
}

/// Noting a failure performs that operation.
pub proof fn lemma_mark_invalid_call(
    pool: &mut AccountPool,
    email: &str,
    reason: &str,
    err: &str,
    now: u64,
)
    requires
        call_ensures(AccountPool::mark_invalid, (pool, email, reason, err, now), ()),
    ensures
        final(pool)@ == old(pool)@.after(
            PoolOp::MarkInvalid { email: email@, reason: reason@, err: err@ },
            now as int,
        ),
{
}

/// Noting a success performs that operation.
pub proof fn lemma_mark_success_call(pool: &mut AccountPool, email: &str, now: u64)
    requires
        call_ensures(AccountPool::mark_success, (pool, email, now), ()),
    ensures
        final(pool)@ == old(pool)@.after(PoolOp::MarkSuccess { email: email@ }, now as int),
{
}

/// Noting a check performs that operation.
pub proof fn lemma_apply_verify_call(
    pool: &mut AccountPool,
    email: &str,
    valid: bool,
    status_code: &str,
    error: &str,
    now: u64,
)
    requires
        call_ensures(AccountPool::apply_verify, (pool, email, valid, status_code, error, now), ()),
    ensures
        final(pool)@ == old(pool)@.after(
            PoolOp::ApplyVerify {
                email: email@,
                valid,
                status_code: status_code@,
                error: error@,
            },
            now as int,
        ),
{
}

/// Adding an account performs that operation.
pub proof fn lemma_add_call(pool: &mut AccountPool, account: Account, now: u64)
    requires
        call_ensures(AccountPool::add, (pool, account, now), ()),
    ensures
        final(pool)@ == old(pool)@.after(PoolOp::Add { account: account@ }, now as int),
{
}

/// Removing an address performs that operation.
pub proof fn lemma_remove_call(pool: &mut AccountPool, email: &str, now: u64)
    requires
        call_ensures(AccountPool::remove, (pool, email, now), ()),
    ensures
        final(pool)@ == old(pool)@.after(PoolOp::Remove { email: email@ }, now as int),
{
}

/// Setting the load of an account performs that operation.
pub proof fn lemma_set_max_inflight_call(pool: &mut AccountPool, v: i64, now: u64)
    requires
        call_ensures(AccountPool::set_max_inflight, (pool, v, now), ()),
    ensures
        final(pool)@ == old(pool)@.after(PoolOp::SetMaxInflight { v: v as int }, now as int),
{
}

/// Setting the load of the pool performs that operation.
pub proof fn lemma_set_global_max_inflight_call(pool: &mut AccountPool, v: i64, now: u64)
    requires
        call_ensures(AccountPool::set_global_max_inflight, (pool, v, now), ()),
    ensures
        final(pool)@ == old(pool)@.after(PoolOp::SetGlobalMaxInflight { v: v as int }, now as int),
{
}

/// Setting the least interval performs that operation, up to the last change that a machine word
/// can count.
pub proof fn lemma_set_min_interval_call(pool: &mut AccountPool, ms: u64)
    requires
        call_ensures(AccountPool::set_min_interval, (pool, ms), ()),
    ensures
        final(pool)@.min_interval_ms == ms,
        final(pool)@.state == old(pool)@.state,
        final(pool)@.interval_gen != old(pool)@.interval_gen,
        old(pool)@.interval_gen < u64::MAX ==> forall|now: int|
            final(pool)@ == #[trigger] old(pool)@.after(
                PoolOp::SetMinInterval { ms: ms as int },
                now,
            ),
{
}

/// A step of waiting: an account that can be taken is taken. Otherwise a request that comes joins
/// the queue until its time is over, or is refused where the queue is full; one that is in the
/// queue sleeps until its time is over, but no longer than half a second, and then gives up.
pub proof fn lemma_acquire_wait_call(
    pool: &mut AccountPool,
    preferred: Option<&str>,
    exclude: &EmailSet,
    phase: WaitPhase,
    now: u64,
    jitter_ms: u64,
    r: WaitStep,
)
    requires
        call_ensures(
            AccountPool::acquire_wait,
            (pool, preferred, exclude, phase, now, jitter_ms),
            r,
        ),
    ensures
        ({
            let p = old(pool)@;
            let q = final(pool)@;
            let (state, h) = p.taking(
                opt_str_view(preferred),
                exclude@,
                now as int,
                jitter_ms as int,
            );
            let size = p.state.max_queue_size;
            &&& q.state == state
            &&& q.min_interval_ms == p.min_interval_ms
            &&& q.interval_gen == p.interval_gen
            &&& h matches Some(h) ==> r@ == WaitStepView::Acquired(h) && q.waiting == p.waiting
            &&& h is None && phase is Start ==> {
                &&& size > 0 && p.waiting < size ==> r@ == (WaitStepView::Joined {
                    deadline: now + phase->timeout,
                })
                &&& size > 0 && p.waiting < size && p.waiting < usize::MAX ==> q.waiting
                    == p.waiting + 1
                &&& size <= 0 || p.waiting >= size ==> r@ == WaitStepView::Refused && q.waiting
                    == p.waiting
            }
            &&& h is None && phase is Queued ==> {
                &&& q.waiting == p.waiting
                &&& phase->deadline <= now ==> r@ == WaitStepView::TimedOut
                &&& now < phase->deadline <= now + 500_000 ==> r@ == (WaitStepView::Sleep {
                    micros: phase->deadline - now,
                })
                &&& phase->deadline > now + 500_000 ==> r@ == (WaitStepView::Sleep {
                    micros: 500_000,
                })
            }
        }),
{
}

/// A request that leaves the queue is no longer counted in it, and changes nothing else.
pub proof fn lemma_leave_queue_call(pool: &mut AccountPool)
    requires
        call_ensures(AccountPool::leave_queue, (pool,), ()),
        old(pool)@.waiting > 0,
    ensures
        final(pool)@.waiting == old(pool)@.waiting - 1,
        final(pool)@ == (AccountPoolView { waiting: old(pool)@.waiting - 1, ..old(pool)@ }),
{
}

/// The summary counts each account once and tells the load and the limits.
pub proof fn lemma_status_call(pool: &AccountPool, now: u64, r: PoolStatus)
    requires
        call_ensures(AccountPool::status, (pool, now), r),
    ensures
        ({
            let accounts = pool@.state.accounts;
            &&& r.total == accounts.len()
            &&& r.rate_limited == accounts.filter(
                |a: AccountView| a.rate_limited_until > now as int,
            ).len()
            &&& r.valid == accounts.filter(|a: AccountView| works(a, now as int)).len()
            &&& r.invalid == accounts.filter(
                |a: AccountView| a.rate_limited_until <= now as int && !a.valid,
            ).len()
            &&& r.total == r.valid + r.rate_limited + r.invalid
            &&& r.in_use == accounts.map_values(|a: AccountView| a.inflight).fold_left(
                0int,
                |sum: int, n: int| sum + n,
            )
            &&& r.global_in_use == pool@.state.global_in_use
            &&& r.waiting == pool@.waiting
            &&& r.max_inflight_per_account == pool@.state.max_inflight_per_account
            &&& r.max_queue_size == pool@.state.max_queue_size
            &&& r.global_max_inflight == pool@.state.global_max_inflight
        }),
{
    lemma_summary(pool@.state.accounts, now as int);
}

/// The detailed report tells of the accounts that carry load, rest or do not work, in order, of the
/// first five hundred at most.
pub proof fn lemma_per_account_status_call(
    pool: &AccountPool,
    now: u64,
    r: Vec<AccountStatus>,
    k: int,
)
    requires
        call_ensures(AccountPool::per_account_status, (pool, now), r),
    ensures
        ({
            let told = pool@.state.accounts.filter(
                |a: AccountView|
                    a.inflight > 0 || a.rate_limited_until > now as int || !a.valid,
            );
            &&& told.len() <= 500 ==> r@.len() == told.len()
            &&& told.len() > 500 ==> r@.len() == 500
            &&& 0 <= k < r@.len() ==> {
                &&& r@[k].email@ == told[k].email
                &&& r@[k].valid == told[k].valid
                &&& r@[k].activation_pending == told[k].activation_pending
                &&& r@[k].status_code@ == told[k].status_code
                &&& r@[k].rate_limited_until == told[k].rate_limited_until
                &&& r@[k].inflight == told[k].inflight
                &&& r@[k].max_inflight == pool@.state.max_inflight_per_account
                &&& r@[k].consecutive_failures == told[k].consecutive_failures
                &&& r@[k].rate_limit_strikes == told[k].rate_limit_strikes
                &&& r@[k].last_request_finished == told[k].last_request_finished
            }
        }),
{
    let accounts = pool@.state.accounts;
    let cap = pool@.state.max_inflight_per_account;
    lemma_report(accounts, cap, now as int);
    let lines = r@.map_values(|s: AccountStatus| s@);
    assert(lines.len() == r@.len());
    if 0 <= k < r@.len() {
        assert(lines[k] == r@[k]@);
    }
}

/// Any account that works and has a token will do outside the pool: the first one is given, with
/// its own token, and none only where there is none.
pub proof fn lemma_any_valid_calls(
    pool: &AccountPool,
    now: u64,
    account: Option<(String, String)>,
    token: Option<String>,
)
    requires
        call_ensures(AccountPool::any_valid_account, (pool, now), account),
        call_ensures(AccountPool::any_valid_token, (pool, now), token),
    ensures
        ({
            let usable = pool@.state.accounts.filter(
                |a: AccountView| works(a, now as int) && a.token.len() > 0,
            );
            &&& account is Some <==> usable.len() > 0
            &&& account matches Some(p) ==> p.0@ == usable[0].email && p.1@ == usable[0].token
            &&& token is Some <==> usable.len() > 0
            &&& token matches Some(t) ==> t@ == usable[0].token
        }),
{
    let usable = pool@.state.accounts.filter(
        |a: AccountView| works(a, now as int) && a.token.len() > 0,
    );
    lemma_usable_pairs(pool@.state.accounts, now as int);
    let pairs = usable.map_values(|a: AccountView| (a.email, a.token));
    assert(pairs.len() == usable.len());
    if usable.len() > 0 {
        assert(pairs[0] == (usable[0].email, usable[0].token));
    }
}

/// All accounts that work and have a token are given, in order.
pub proof fn lemma_all_emails_tokens_call(
    pool: &AccountPool,
    now: u64,
    r: Vec<(String, String)>,
)
    requires
        call_ensures(AccountPool::all_emails_tokens, (pool, now), r),
    ensures
        r@.map_values(|p: (String, String)| (p.0@, p.1@)) == pool@.state.accounts.filter(
            |a: AccountView| works(a, now as int) && a.token.len() > 0,
        ).map_values(|a: AccountView| (a.email, a.token)),
{
    lemma_usable_pairs(pool@.state.accounts, now as int);
}

/// What can be read of the pool is what it holds.
pub proof fn lemma_reading_calls(
    pool: &AccountPool,
    email: &str,
    count: usize,
    list: Vec<Account>,
    token: Option<String>,
    config: (i64, i64, i64),
    min_ms: u64,
    i: int,
)
    requires
        pool.wf(),
        call_ensures(AccountPool::count, (pool,), count),
        call_ensures(AccountPool::list, (pool,), list),
        call_ensures(AccountPool::token_of, (pool, email), token),
        call_ensures(AccountPool::concurrency_config, (pool,), config),
        call_ensures(AccountPool::min_interval_ms, (pool,), min_ms),
    ensures
        count == pool@.state.accounts.len(),
        list@.map_values(|a: Account| a@) == pool@.state.accounts,
        pool@.state.stands_for(i, email@) ==> opt_view(token) == Some(
            pool@.state.accounts[i].token,
        ),
        pool@.state.lacks(email@) ==> token is None,
        config.0 == pool@.state.max_inflight_per_account,
        config.1 == pool@.state.global_max_inflight,
        config.2 == pool@.state.max_queue_size,
        min_ms == pool@.min_interval_ms,
{
    lemma_stands_for(pool@.state, i, email@);
}

} // verus!
