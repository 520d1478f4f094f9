//! The pool and its operations.

use vstd::prelude::*;
use vstd::string::*;

use super::acquire::opt_handle_view;
use super::handle::AccountHandle;
use super::index::{IndexView, ReadyIndex};
use super::outcome::{cooldown, lemma_replaced_wf, lemma_updated};
use super::state::{is_first, lemma_built_fits, recommended_limit, PoolState, PoolView};
use crate::account::{Account, AccountView};
use crate::email_set::EmailSet;
use crate::text::{opt_str_view, opt_view, str_eq};

verus! {

/// How the pool is set up.
#[derive(Clone, Copy)]
pub struct PoolSettings {
    pub max_inflight_per_account: i64,
    /// Whether to keep an index of ready accounts.
    pub pool_ready_index: bool,
    /// The least interval between two requests on one account, in milliseconds.
    pub account_min_interval_ms: u64,
    pub request_jitter_min_ms: u64,
    pub request_jitter_max_ms: u64,
    /// The cooldown after a first rate limit, in seconds.
    pub rate_limit_base_cooldown: u64,
    pub rate_limit_max_cooldown: u64,
    /// How many authentication errors in a row end an account.
    pub auth_error_fail_threshold: u32,
}

/// The pool, as a mathematical value.
#[verifier::ext_equal]
pub struct AccountPoolView {
    pub state: PoolView,
    /// How many requests wait for an account.
    pub waiting: int,
    pub min_interval_ms: int,
    /// How often the least interval has changed.
    pub interval_gen: int,
    pub jitter_min_ms: int,
    pub jitter_max_ms: int,
    pub base_cooldown: int,
    pub max_cooldown: int,
    pub auth_error_threshold: int,
}

impl AccountPoolView {
    /// The pool with another state.
    pub open spec fn with_state(self, state: PoolView) -> AccountPoolView {
        AccountPoolView { state, ..self }
    }

    /// How many authentication errors in a row end an account: at least one.
    pub open spec fn threshold(self) -> int {
        if self.auth_error_threshold >= 1 {
            self.auth_error_threshold
        } else {
            1
        }
    }

    /// A pool of these accounts, with nothing under way.
    pub open spec fn loaded(
        settings: PoolSettings,
        accounts: Seq<AccountView>,
        now: int,
    ) -> AccountPoolView {
        AccountPoolView {
            state: PoolView {
                accounts,
                max_inflight_per_account: settings.max_inflight_per_account as int,
                global_max_inflight: 0,
                max_queue_size: 0,
                global_in_use: 0,
                admin_global: None,
                sticky_email: None,
                use_index: settings.pool_ready_index,
                idx: if settings.pool_ready_index {
                    Some(IndexView::empty())
                } else {
                    None
                },
                built_gen: 0,
            }.relimited(now).rebuilt(settings.account_min_interval_ms as int, now),
            waiting: 0,
            min_interval_ms: settings.account_min_interval_ms as int,
            interval_gen: 0,
            jitter_min_ms: settings.request_jitter_min_ms as int,
            jitter_max_ms: settings.request_jitter_max_ms as int,
            base_cooldown: settings.rate_limit_base_cooldown as int,
            max_cooldown: settings.rate_limit_max_cooldown as int,
            auth_error_threshold: settings.auth_error_fail_threshold as int,
        }
    }
}

/// The account pool.
pub struct AccountPool {
    pub state: PoolState,
    pub waiting: usize,
    pub min_interval_ms: u64,
    pub interval_gen: u64,
    pub jitter_min_ms: u64,
    pub jitter_max_ms: u64,
    pub base_cooldown: u64,
    pub max_cooldown: u64,
    pub auth_error_threshold: u32,
}

impl View for AccountPool {
    type V = AccountPoolView;

    open spec fn view(&self) -> AccountPoolView {
        AccountPoolView {
            state: self.state@,
            waiting: self.waiting as int,
            min_interval_ms: self.min_interval_ms as int,
            interval_gen: self.interval_gen as int,
            jitter_min_ms: self.jitter_min_ms as int,
            jitter_max_ms: self.jitter_max_ms as int,
            base_cooldown: self.base_cooldown as int,
            max_cooldown: self.max_cooldown as int,
            auth_error_threshold: self.auth_error_threshold as int,
        }
    }
}

impl AccountPool {
    /// The state is well formed, and the places in its index agree with the loads of the accounts.
    pub open spec fn wf(&self) -> bool {
        self.state.wf() && self@.state.loads_agree()
    }

    /// A pool of these accounts.
    pub fn load(settings: &PoolSettings, accounts: Vec<Account>, now: u64) -> (r: Self)
        requires
            recommended_limit(
                accounts@.map_values(|a: Account| a@),
                settings.max_inflight_per_account as int,
                now as int,
            ) <= i64::MAX,
        ensures
            r.wf(),
            r@ == AccountPoolView::loaded(
                *settings,
                accounts@.map_values(|a: Account| a@),
                now as int,
            ),
    {
        let use_index = settings.pool_ready_index;
        // The number of accounts fits in a machine word.
        let _count: usize = accounts.len();
        proof {
            lemma_built_fits(
                accounts@.map_values(|a: Account| a@),
                settings.max_inflight_per_account as int,
                settings.account_min_interval_ms as int,
                now as int,
            );
        }
        let mut state = PoolState {
            accounts,
            max_inflight_per_account: settings.max_inflight_per_account,
            global_max_inflight: 0,
            max_queue_size: 0,
            global_in_use: 0,
            admin_global: None,
            sticky_email: None,
            use_index,
            idx: if use_index {
                Some(ReadyIndex::new())
            } else {
                None
            },
            built_gen: 0,
        };
        state.reset_concurrency_limits(now);
        state.rebuild_index(settings.account_min_interval_ms, now);
        AccountPool {
            state,
            waiting: 0,
            min_interval_ms: settings.account_min_interval_ms,
            interval_gen: 0,
            jitter_min_ms: settings.request_jitter_min_ms,
            jitter_max_ms: settings.request_jitter_max_ms,
            base_cooldown: settings.rate_limit_base_cooldown,
            max_cooldown: settings.rate_limit_max_cooldown,
            auth_error_threshold: settings.auth_error_fail_threshold,
        }
    }

    /// How many accounts there are.
    pub fn count(&self) -> (r: usize)
        ensures
            r == self@.state.accounts.len(),
    {
        self.state.accounts.len()
    }

    /// Takes an account that is free now. The preferred one comes first; an excluded one
    /// never.
    pub fn acquire(
        &mut self,
        preferred: Option<&str>,
        exclude: &EmailSet,
        now: u64,
        jitter_ms: u64,
    ) -> (r: Option<AccountHandle>)
        requires
            old(self).wf(),
            old(self).state.global_in_use < i64::MAX,
        ensures
            final(self).wf(),
            ({
                let (state, handle) = old(self)@.state.acquired(
                    old(self)@.interval_gen,
                    opt_str_view(preferred),
                    exclude@,
                    old(self)@.min_interval_ms,
                    now as int,
                    jitter_ms as int,
                );
                &&& final(self)@ == old(self)@.with_state(state)
                &&& opt_handle_view(r) == handle
            }),
    {
        self.state.acquire(
            self.interval_gen,
            preferred,
            exclude,
            self.min_interval_ms,
            now,
            jitter_ms,
        )
    }

    /// Gives an account back.
    pub fn release(&mut self, email: &str, now: u64)
        requires
            old(self).wf(),
        ensures
            final(self).wf(),
            final(self)@ == old(self)@.with_state(
                old(self)@.state.released(email@, old(self)@.min_interval_ms, now as int),
            ),
    {
        let ghost p0 = self.state@;
        let min_ms: u64 = self.min_interval_ms;
        if let Some(pos) = self.state.account_pos(email) {
            let ghost b = p0.accounts[pos as int].released(now as int);
            let acc = &mut self.state.accounts[pos];
            acc.inflight = if acc.inflight > 1 {
                acc.inflight - 1
            } else {
                0
            };
            acc.last_request_finished = now as u128;
            proof {
                assert(self.state@ =~= p0.with_account(pos as int, b));
                lemma_replaced_wf(p0, pos as int, b);
                lemma_updated(p0, email@, b, min_ms as int, now as int);
            }
            self.state.reindex_email(email, min_ms, now);
        }
        self.state.global_in_use = if self.state.global_in_use > 1 {
            self.state.global_in_use - 1
        } else {
            0
        };
    }
}

/// The list with an account put in place of the first with its address, or else added.
pub open spec fn with_added(accounts: Seq<AccountView>, a: AccountView) -> Seq<AccountView> {
    if exists|i: int| is_first(accounts, a.email, i) {
        accounts.update(choose|i: int| is_first(accounts, a.email, i), a)
    } else {
        accounts.push(a)
    }
}

/// The list without the accounts that have an address.
pub open spec fn without_email(accounts: Seq<AccountView>, email: Seq<char>) -> Seq<AccountView>
    decreases accounts.len(),
{
    if accounts.len() == 0 {
        accounts
    } else if accounts.last().email == email {
        without_email(accounts.drop_last(), email)
    } else {
        without_email(accounts.drop_last(), email).push(accounts.last())
    }
}

impl PoolView {
    /// The state with another list of accounts: limits and index follow it.
    pub open spec fn relisted(self, accounts: Seq<AccountView>, min_ms: int, now: int) -> PoolView {
        PoolView { accounts, ..self }.relimited(now).rebuilt(min_ms, now)
    }

    /// The state with another load that each account may carry, at least one.
    pub open spec fn recapped(self, v: int, min_ms: int, now: int) -> PoolView {
        PoolView {
            max_inflight_per_account: if v >= 1 {
                v
            } else {
                1
            },
            ..self
        }.relimited(now).rebuilt(min_ms, now)
    }

    /// The state with an administrator's limit over all accounts; none unless positive.
    pub open spec fn with_admin_limit(self, v: int, now: int) -> PoolView {
        PoolView {
            admin_global: if v > 0 {
                Some(v)
            } else {
                None
            },
            ..self
        }.relimited(now)
    }
}

impl AccountPool {
    /// Sets the limits and builds the index for a list that has changed.
    fn refresh(&mut self, now: u64)
        requires
            old(self)@.state.use_index == (old(self)@.state.idx is Some),
            recommended_limit(
                old(self)@.state.accounts,
                old(self)@.state.max_inflight_per_account,
                now as int,
            ) <= i64::MAX,
        ensures
            final(self).wf(),
            final(self)@ == old(self)@.with_state(
                old(self)@.state.relimited(now as int).rebuilt(
                    old(self)@.min_interval_ms,
                    now as int,
                ),
            ),
    {
        // The number of accounts fits in a machine word.
        let _count: usize = self.state.accounts.len();
        proof {
            lemma_built_fits(
                self@.state.accounts,
                self@.state.max_inflight_per_account,
                self@.min_interval_ms,
                now as int,
            );
        }
        self.state.reset_concurrency_limits(now);
        self.state.rebuild_index(self.min_interval_ms, now);
    }

    /// Sets how many requests each account may carry: at least one.
    pub fn set_max_inflight(&mut self, v: i64, now: u64)
        requires
            old(self).wf(),
            recommended_limit(old(self)@.state.accounts, v as int, now as int) <= i64::MAX,
        ensures
            final(self).wf(),
            final(self)@ == old(self)@.with_state(
                old(self)@.state.recapped(v as int, old(self)@.min_interval_ms, now as int),
            ),
    {
        self.state.max_inflight_per_account = if v >= 1 {
            v
        } else {
            1
        };
        self.refresh(now);
    }

    /// Sets how many requests all accounts together may carry. Zero or less leaves it to the
    /// number of healthy accounts.
    pub fn set_global_max_inflight(&mut self, v: i64, now: u64)
        requires
            old(self).wf(),
            recommended_limit(
                old(self)@.state.accounts,
                old(self)@.state.max_inflight_per_account,
                now as int,
            ) <= i64::MAX,
        ensures
            final(self).wf(),
            final(self)@ == old(self)@.with_state(
                old(self)@.state.with_admin_limit(v as int, now as int),
            ),
    {
        self.state.admin_global = if v > 0 {
            Some(v)
        } else {
            None
        };
        self.state.reset_concurrency_limits(now);
    }

    /// Sets the least interval between two requests on one account. The index follows when an
    /// account is next taken.
    pub fn set_min_interval(&mut self, ms: u64)
        requires
            old(self).wf(),
        ensures
            final(self).wf(),
            final(self)@ == (AccountPoolView {
                min_interval_ms: ms as int,
                interval_gen: if old(self)@.interval_gen == u64::MAX {
                    0
                } else {
                    old(self)@.interval_gen + 1
                },
                ..old(self)@
            }),
    {
        self.min_interval_ms = ms;
        self.interval_gen = self.interval_gen.wrapping_add(1);
    }

    /// The least interval between two requests on one account.
    pub fn min_interval_ms(&self) -> (r: u64)
        ensures
            r == self@.min_interval_ms,
    {
        self.min_interval_ms
    }

    /// Adds an account, in place of the first with the same address where there is one.
    pub fn add(&mut self, acc: Account, now: u64)
        requires
            old(self).wf(),
            recommended_limit(
                with_added(old(self)@.state.accounts, acc@),
                old(self)@.state.max_inflight_per_account,
                now as int,
            ) <= i64::MAX,
        ensures
            final(self).wf(),
            final(self)@ == old(self)@.with_state(
                old(self)@.state.relisted(
                    with_added(old(self)@.state.accounts, acc@),
                    old(self)@.min_interval_ms,
                    now as int,
                ),
            ),
    {
        let ghost all = self@.state.accounts;
        let ghost a = acc@;
        let n: usize = self.state.accounts.len();
        let mut i: usize = 0;
        while i < n && !str_eq(self.state.accounts[i].email.as_str(), acc.email.as_str())
            invariant
                *self == *old(self),
                n == self.state.accounts@.len(),
                all == self@.state.accounts,
                i <= n,
                a == acc@,
                forall|j: int| 0 <= j < i ==> (#[trigger] all[j]).email != a.email,
            decreases n - i,
        {
            assert(all[i as int].email != a.email);
            i = i + 1;
        }
        if i < n {
            proof {
                assert(is_first(all, a.email, i as int));
                let k = choose|k: int| is_first(all, a.email, k);
                assert(k == i);
            }
            self.state.accounts[i] = acc;
        } else {
            self.state.accounts.push(acc);
        }
        assert(self@.state.accounts =~= with_added(all, a));
        self.refresh(now);
    }

    /// Removes every account with an address.
    pub fn remove(&mut self, email: &str, now: u64)
        requires
            old(self).wf(),
            recommended_limit(
                without_email(old(self)@.state.accounts, email@),
                old(self)@.state.max_inflight_per_account,
                now as int,
            ) <= i64::MAX,
        ensures
            final(self).wf(),
            final(self)@ == old(self)@.with_state(
                old(self)@.state.relisted(
                    without_email(old(self)@.state.accounts, email@),
                    old(self)@.min_interval_ms,
                    now as int,
                ),
            ),
    {
        let ghost all = self@.state.accounts;
        let mut before: Vec<Account> = Vec::new();
        core::mem::swap(&mut before, &mut self.state.accounts);
        let mut kept: Vec<Account> = Vec::new();
        let ghost list = before@;
        assert(all.take(0) =~= Seq::empty());
        for acc in it: before
            invariant
                it.seq() == list,
                all == list.map_values(|a: Account| a@),
                kept@.map_values(|a: Account| a@) == without_email(
                    all.take(it.index() as int),
                    email@,
                ),
        {
            let ghost i = it.index() as int;
            assert(all.take(i + 1).drop_last() =~= all.take(i));
            assert(all.take(i + 1).last() == acc@);
            let ghost k0 = kept@;
            if !str_eq(acc.email.as_str(), email) {
                let ghost a = acc@;
                kept.push(acc);
                assert(kept@.map_values(|a: Account| a@) =~= k0.map_values(
                    |a: Account| a@,
                ).push(a));
            }
        }
        assert(all.take(all.len() as int) =~= all);
        self.state.accounts = kept;
        self.refresh(now);
    }

    /// The accounts.
    pub fn list(&self) -> (r: Vec<Account>)
        ensures
            r@.map_values(|a: Account| a@) == self@.state.accounts,
    {
        let mut out: Vec<Account> = Vec::new();
        let mut i: usize = 0;
        while i < self.state.accounts.len()
            invariant
                i <= self.state.accounts@.len(),
                out@.len() == i,
                forall|j: int| 0 <= j < i ==> (#[trigger] out@[j])@ == self@.state.accounts[j],
            decreases self.state.accounts@.len() - i,
        {
            out.push(self.state.accounts[i].clone());
            i = i + 1;
        }
        assert(out@.map_values(|a: Account| a@) =~= self@.state.accounts);
        out
    }

    /// The token of the account with an address.
    pub fn token_of(&self, email: &str) -> (r: Option<String>)
        requires
            self.wf(),
        ensures
            opt_view(r) == self@.state.token_of(email@),
    {
        match self.state.account_pos(email) {
            Some(i) => Some(self.state.accounts[i].token.clone()),
            None => None,
        }
    }

    /// Notes that an account has met a rate limit: it rests, the longer the more often.
    pub fn mark_rate_limited(&mut self, email: &str, jitter_ms: u64, now: u64)
        requires
            old(self).wf(),
            old(self)@.state.position(email@) matches Some(i)
                ==> old(self)@.state.accounts[i].rate_limit_strikes < i64::MAX,
        ensures
            final(self).wf(),
            final(self)@ == old(self)@.with_state(
                old(self)@.state.rate_limited(
                    email@,
                    old(self)@.base_cooldown,
                    old(self)@.max_cooldown,
                    jitter_ms as int,
                    old(self)@.min_interval_ms,
                    now as int,
                ),
            ),
    {
        let min_ms: u64 = self.min_interval_ms;
        let base: u64 = self.base_cooldown;
        let max: u64 = self.max_cooldown;
        self.state.unstick(email);
        let ghost p0 = self.state@;
        if let Some(pos) = self.state.account_pos(email) {
            let ghost b = p0.accounts[pos as int].rate_limited(
                base as int,
                max as int,
                jitter_ms as int,
                now as int,
            );
            let strikes: i64 = self.state.accounts[pos].rate_limit_strikes + 1;
            let secs: u128 = cooldown(base, max, strikes) as u128 + (jitter_ms / 1000) as u128;
            let acc = &mut self.state.accounts[pos];
            acc.rate_limit_strikes = strikes;
            acc.rate_limited_until = now as u128 + secs * 1_000_000;
            acc.status_code = String::from_str("rate_limited");
            proof {
                assert(self.state@ =~= p0.with_account(pos as int, b));
                lemma_replaced_wf(p0, pos as int, b);
                lemma_updated(p0, email@, b, min_ms as int, now as int);
            }
            self.state.reindex_email(email, min_ms, now);
        }
    }

    /// Notes that an account has failed. Authentication errors end it only after so many in a
    /// row as the threshold says; any other reason ends it at once.
    pub fn mark_invalid(&mut self, email: &str, reason: &str, err: &str, now: u64)
        requires
            old(self).wf(),
            old(self)@.state.position(email@) matches Some(i)
                ==> old(self)@.state.accounts[i].consecutive_failures < i64::MAX,
        ensures
            final(self).wf(),
            final(self)@ == old(self)@.with_state(
                old(self)@.state.invalidated(
                    email@,
                    reason@,
                    err@,
                    old(self)@.threshold(),
                    old(self)@.min_interval_ms,
                    now as int,
                ),
            ),
    {
        let min_ms: u64 = self.min_interval_ms;
        let threshold: i64 = if self.auth_error_threshold >= 1 {
            self.auth_error_threshold as i64
        } else {
            1
        };
        self.state.unstick(email);
        let ghost p0 = self.state@;
        if let Some(pos) = self.state.account_pos(email) {
            let ghost b = p0.accounts[pos as int].invalidated(reason@, err@, threshold as int);
            let auth_error = str_eq(reason, "auth_error");
            let acc = &mut self.state.accounts[pos];
            acc.status_code = if reason.is_empty() {
                String::from_str("auth_error")
            } else {
                String::from_str(reason)
            };
            acc.consecutive_failures = acc.consecutive_failures + 1;
            if !err.is_empty() {
                acc.last_error = String::from_str(err);
            }
            if !auth_error || acc.consecutive_failures >= threshold {
                acc.valid = false;
            }
            if str_eq(reason, "pending_activation") {
                acc.activation_pending = true;
            }
            proof {
                assert(self.state@ =~= p0.with_account(pos as int, b));
                lemma_replaced_wf(p0, pos as int, b);
                lemma_updated(p0, email@, b, min_ms as int, now as int);
            }
            self.state.reindex_email(email, min_ms, now);
        }
    }

    /// Notes that an account has served a request.
    pub fn mark_success(&mut self, email: &str, now: u64)
        requires
            old(self).wf(),
        ensures
            final(self).wf(),
            final(self)@ == old(self)@.with_state(
                old(self)@.state.succeeded(email@, old(self)@.min_interval_ms, now as int),
            ),
    {
        let min_ms: u64 = self.min_interval_ms;
        let ghost p0 = self.state@;
        if let Some(pos) = self.state.account_pos(email) {
            let ghost b = p0.accounts[pos as int].succeeded();
            let limited = str_eq(self.state.accounts[pos].status_code.as_str(), "rate_limited");
            let acc = &mut self.state.accounts[pos];
            acc.consecutive_failures = 0;
            acc.rate_limit_strikes = 0;
            if limited {
                acc.rate_limited_until = 0;
            }
            if acc.valid {
                acc.status_code = String::from_str("valid");
            }
            proof {
                assert(self.state@ =~= p0.with_account(pos as int, b));
                lemma_replaced_wf(p0, pos as int, b);
                lemma_updated(p0, email@, b, min_ms as int, now as int);
            }
            self.state.reindex_email(email, min_ms, now);
        }
    }

    /// Notes what a check of an account has shown.
    pub fn apply_verify(
        &mut self,
        email: &str,
        valid: bool,
        status_code: &str,
        error: &str,
        now: u64,
    )
        requires
            old(self).wf(),
            !valid ==> (old(self)@.state.position(email@) matches Some(i)
                ==> old(self)@.state.accounts[i].consecutive_failures < i64::MAX),
        ensures
            final(self).wf(),
            final(self)@ == old(self)@.with_state(
                old(self)@.state.checked(
                    email@,
                    valid,
                    status_code@,
                    error@,
                    old(self)@.min_interval_ms,
                    now as int,
                ),
            ),
    {
        let min_ms: u64 = self.min_interval_ms;
        let ghost p0 = self.state@;
        if let Some(pos) = self.state.account_pos(email) {
            let ghost b = p0.accounts[pos as int].checked(valid, status_code@, error@);
            let acc = &mut self.state.accounts[pos];
            acc.valid = valid;
            acc.status_code = String::from_str(status_code);
            acc.last_error = String::from_str(error);
            if valid {
                acc.activation_pending = false;
                acc.consecutive_failures = 0;
                acc.rate_limit_strikes = 0;
            } else {
                acc.consecutive_failures = acc.consecutive_failures + 1;
            }
            proof {
                assert(self.state@ =~= p0.with_account(pos as int, b));
                lemma_replaced_wf(p0, pos as int, b);
                lemma_updated(p0, email@, b, min_ms as int, now as int);
            }
            self.state.reindex_email(email, min_ms, now);
        }
    }

    /// How many requests each account, all accounts and the queue may hold.
    pub fn concurrency_config(&self) -> (r: (i64, i64, i64))
        ensures
            r.0 == self@.state.max_inflight_per_account,
            r.1 == self@.state.global_max_inflight,
            r.2 == self@.state.max_queue_size,
    {
        (
            self.state.max_inflight_per_account,
            self.state.global_max_inflight,
            self.state.max_queue_size,
        )
    }
}

} // verus!
