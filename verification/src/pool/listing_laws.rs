//! What the list of accounts, the limits and the reports hold, account by account.

use vstd::prelude::*;
use vstd::string::*;

use super::account_pool::{with_added, without_email, AccountPoolView, PoolSettings};
use super::history_laws::lemma_remove;
use super::laws::PoolOp;
use super::outcome_laws::lemma_stands_for;
use super::report::{
    health_count, is_first_usable, notable_lines, total_inflight, usable_pairs, AccountStatusView,
    Health,
};
use super::state::{healthy_count, is_first, recommended_limit, PoolView};
use crate::account::AccountView;

verus! {

/// The account works and no rate limit is in force.
pub open spec fn works(a: AccountView, now: int) -> bool {
    a.valid && a.rate_limited_until <= now
}

impl PoolView {
    /// The limits over all accounts: the administrator's where there is one, else so many requests
    /// as each account may carry (at least one), for each account that works.
    pub open spec fn limits_follow(self, now: int) -> bool {
        let n = self.accounts.filter(|a: AccountView| works(a, now)).len();
        &&& self.admin_global matches Some(v) ==> self.global_max_inflight == v
        &&& self.admin_global is None && self.max_inflight_per_account >= 1
            ==> self.global_max_inflight == n * self.max_inflight_per_account
        &&& self.admin_global is None && self.max_inflight_per_account < 1
            ==> self.global_max_inflight == n
        &&& self.max_queue_size == self.global_max_inflight
    }
}

proof fn lemma_healthy_count(accounts: Seq<AccountView>, now: int)
    ensures
        healthy_count(accounts, now) == accounts.filter(|a: AccountView| works(a, now)).len(),
    decreases accounts.len(),
{
    reveal(Seq::filter);
    if accounts.len() > 0 {
        lemma_healthy_count(accounts.drop_last(), now);
    }
}

proof fn lemma_relimited(p: PoolView, now: int)
    ensures
        p.relimited(now).limits_follow(now),
{
    lemma_healthy_count(p.accounts, now);
    let n = p.accounts.filter(|a: AccountView| works(a, now)).len() as int;
    assert(n * 1 == n);
    assert(recommended_limit(p.accounts, p.max_inflight_per_account, now) == n * if p.max_inflight_per_account
        >= 1 {
        p.max_inflight_per_account
    } else {
        1
    });
}

/// A pool that has just been loaded has the accounts and the settings that it was given, carries
/// nothing, and has the limits that follow from them.
pub proof fn lemma_load_effect(settings: PoolSettings, accounts: Seq<AccountView>, now: int)
    ensures
        ({
            let p = AccountPoolView::loaded(settings, accounts, now);
            &&& p.state.accounts == accounts
            &&& p.state.max_inflight_per_account == settings.max_inflight_per_account
            &&& p.state.admin_global is None
            &&& p.state.limits_follow(now)
            &&& p.state.global_in_use == 0
            &&& p.state.sticky_email is None
            &&& p.state.use_index == settings.pool_ready_index
            &&& p.waiting == 0
            &&& p.min_interval_ms == settings.account_min_interval_ms
            &&& p.jitter_min_ms == settings.request_jitter_min_ms
            &&& p.jitter_max_ms == settings.request_jitter_max_ms
            &&& p.base_cooldown == settings.rate_limit_base_cooldown
            &&& p.max_cooldown == settings.rate_limit_max_cooldown
            &&& p.auth_error_threshold == settings.auth_error_fail_threshold
        }),
{
    let p = AccountPoolView::loaded(settings, accounts, now);
    lemma_relimited(p.state, now);
}

/// An account that is added stands in place of the first with its address, or else at the end of
/// the list. The limits follow.
pub proof fn lemma_add_effect(p: AccountPoolView, account: AccountView, i: int, now: int)
    ensures
        ({
            let q = p.after(PoolOp::Add { account }, now);
            &&& q.same_settings(p)
            &&& p.state.lacks(account.email) ==> q.state.accounts == p.state.accounts.push(account)
            &&& is_first(p.state.accounts, account.email, i) ==> q.state.differs_at(p.state, i)
                && q.state.accounts[i] == account
            &&& q.state.limits_follow(now)
            &&& q.state.max_inflight_per_account == p.state.max_inflight_per_account
            &&& q.state.admin_global == p.state.admin_global
            &&& q.state.global_in_use == p.state.global_in_use
            &&& q.state.sticky_email == p.state.sticky_email
        }),
{
    let q = p.after(PoolOp::Add { account }, now);
    lemma_relimited(PoolView { accounts: with_added(p.state.accounts, account), ..p.state }, now);
    if is_first(p.state.accounts, account.email, i) {
        let k = choose|k: int| is_first(p.state.accounts, account.email, k);
        assert(is_first(p.state.accounts, account.email, k));
        assert(k == i);
    }
}

/// A removal leaves the accounts with another address, in their order. The limits follow.
pub proof fn lemma_remove_effect(p: AccountPoolView, email: Seq<char>, now: int)
    ensures
        ({
            let q = p.after(PoolOp::Remove { email }, now);
            &&& q.same_settings(p)
            &&& q.state.accounts == p.state.accounts.filter(|a: AccountView| a.email != email)
            &&& q.state.lacks(email)
            &&& q.state.limits_follow(now)
            &&& q.state.max_inflight_per_account == p.state.max_inflight_per_account
            &&& q.state.admin_global == p.state.admin_global
            &&& q.state.global_in_use == p.state.global_in_use
            &&& q.state.sticky_email == p.state.sticky_email
        }),
{
    let q = p.after(PoolOp::Remove { email }, now);
    lemma_relimited(PoolView { accounts: without_email(p.state.accounts, email), ..p.state }, now);
    lemma_remove(p.state.accounts, email);
}

/// The limits that are set are the limits that hold: at least one request on each account, and
/// over all accounts what the administrator says where that is positive.
pub proof fn lemma_limits_effect(p: AccountPoolView, v: int, now: int)
    ensures
        ({
            let q = p.after(PoolOp::SetMaxInflight { v }, now);
            &&& q.same_settings(p)
            &&& q.state.accounts == p.state.accounts
            &&& v >= 1 ==> q.state.max_inflight_per_account == v
            &&& v < 1 ==> q.state.max_inflight_per_account == 1
            &&& q.state.admin_global == p.state.admin_global
            &&& q.state.global_in_use == p.state.global_in_use
            &&& q.state.limits_follow(now)
        }),
        ({
            let q = p.after(PoolOp::SetGlobalMaxInflight { v }, now);
            &&& q.same_settings(p)
            &&& q.state.accounts == p.state.accounts
            &&& q.state.max_inflight_per_account == p.state.max_inflight_per_account
            &&& v > 0 ==> q.state.global_max_inflight == v && q.state.max_queue_size == v
            &&& v <= 0 ==> q.state.admin_global is None
            &&& q.state.global_in_use == p.state.global_in_use
            &&& q.state.limits_follow(now)
        }),
        ({
            let q = p.after(PoolOp::SetMinInterval { ms: v }, now);
            &&& q.min_interval_ms == v
            &&& q.state == p.state
            &&& q.interval_gen != p.interval_gen
        }),
{
    lemma_relimited(p.after(PoolOp::SetMaxInflight { v }, now).state, now);
    lemma_relimited(p.after(PoolOp::SetGlobalMaxInflight { v }, now).state, now);
}

/// The token of an address is the one of the account that stands for it.
pub proof fn lemma_token_of(p: PoolView, i: int, email: Seq<char>)
    requires
        p.wf(),
    ensures
        p.stands_for(i, email) ==> p.token_of(email) == Some(p.accounts[i].token),
        p.lacks(email) ==> p.token_of(email) is None,
{
    lemma_stands_for(p, i, email);
}

/// The first account that can be used outside the pool works, has a token, and no account before
/// it does.
pub proof fn lemma_first_usable(accounts: Seq<AccountView>, now: int, i: int)
    ensures
        is_first_usable(accounts, now, i) <==> {
            &&& 0 <= i < accounts.len()
            &&& works(accounts[i], now)
            &&& accounts[i].token.len() > 0
            &&& forall|j: int|
                0 <= j < i ==> !works(#[trigger] accounts[j], now) || accounts[j].token.len() == 0
        },
{
}

/// All accounts that work and have a token are listed with it, in order.
pub proof fn lemma_usable_pairs(accounts: Seq<AccountView>, now: int)
    ensures
        usable_pairs(accounts, now) == accounts.filter(
            |a: AccountView| works(a, now) && a.token.len() > 0,
        ).map_values(|a: AccountView| (a.email, a.token)),
    decreases accounts.len(),
{
    reveal(Seq::filter);
    let ok = |a: AccountView| works(a, now) && a.token.len() > 0;
    let pair = |a: AccountView| (a.email, a.token);
    if accounts.len() > 0 {
        lemma_usable_pairs(accounts.drop_last(), now);
        let before = accounts.drop_last().filter(ok);
        if ok(accounts.last()) {
            assert(before.push(accounts.last()).map_values(pair) =~= before.map_values(pair).push(
                pair(accounts.last()),
            ));
        }
    } else {
        assert(accounts.filter(ok).map_values(pair) =~= Seq::empty());
    }
}

/// Every account counts once in the summary: as rate limited while a rate limit is in force, else
/// as valid or not.
pub proof fn lemma_summary(accounts: Seq<AccountView>, now: int)
    ensures
        health_count(accounts, now, Health::RateLimited) == accounts.filter(
            |a: AccountView| a.rate_limited_until > now,
        ).len(),
        health_count(accounts, now, Health::Valid) == accounts.filter(
            |a: AccountView| works(a, now),
        ).len(),
        health_count(accounts, now, Health::Invalid) == accounts.filter(
            |a: AccountView| a.rate_limited_until <= now && !a.valid,
        ).len(),
        health_count(accounts, now, Health::RateLimited) + health_count(
            accounts,
            now,
            Health::Valid,
        ) + health_count(accounts, now, Health::Invalid) == accounts.len(),
        total_inflight(accounts) == accounts.map_values(|a: AccountView| a.inflight).fold_left(
            0int,
            |sum: int, n: int| sum + n,
        ),
    decreases accounts.len(),
{
    reveal(Seq::filter);
    let load = |a: AccountView| a.inflight;
    if accounts.len() > 0 {
        lemma_summary(accounts.drop_last(), now);
        assert(accounts.map_values(load).drop_last() =~= accounts.drop_last().map_values(load));
        assert(accounts.map_values(load).last() == accounts.last().inflight);
    }
}

/// The report lists the accounts that carry load, rest or do not work, in order, and no more than
/// five hundred of them.
pub proof fn lemma_report(accounts: Seq<AccountView>, cap: int, now: int)
    ensures
        ({
            let all = accounts.filter(
                |a: AccountView| a.inflight > 0 || a.rate_limited_until > now || !a.valid,
            ).map_values(
                |a: AccountView|
                    AccountStatusView {
                        email: a.email,
                        valid: a.valid,
                        activation_pending: a.activation_pending,
                        status_code: a.status_code,
                        rate_limited_until: a.rate_limited_until,
                        inflight: a.inflight,
                        max_inflight: cap,
                        consecutive_failures: a.consecutive_failures,
                        rate_limit_strikes: a.rate_limit_strikes,
                        last_request_finished: a.last_request_finished,
                    },
            );
            notable_lines(accounts, cap, now) == if all.len() <= 500 {
                all
            } else {
                all.take(500)
            }
        }),
    decreases accounts.len(),
{
    reveal(Seq::filter);
    let ok = |a: AccountView| a.inflight > 0 || a.rate_limited_until > now || !a.valid;
    let line = |a: AccountView|
        AccountStatusView {
            email: a.email,
            valid: a.valid,
            activation_pending: a.activation_pending,
            status_code: a.status_code,
            rate_limited_until: a.rate_limited_until,
            inflight: a.inflight,
            max_inflight: cap,
            consecutive_failures: a.consecutive_failures,
            rate_limit_strikes: a.rate_limit_strikes,
            last_request_finished: a.last_request_finished,
        };
    if accounts.len() > 0 {
        lemma_report(accounts.drop_last(), cap, now);
        let before = accounts.drop_last().filter(ok);
        let a = accounts.last();
        if ok(a) {
            let all = before.push(a).map_values(line);
            assert(all =~= before.map_values(line).push(line(a)));
            if all.len() > 500 && before.len() > 500 {
                assert(all.take(500) =~= before.map_values(line).take(500));
            } else if all.len() > 500 {
                assert(all.take(500) =~= before.map_values(line));
            }
        }
    } else {
        assert(accounts.filter(ok).map_values(line) =~= Seq::empty());
    }
}

} // verus!
