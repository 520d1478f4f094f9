//! What each outcome of a request does to its account, field by field.

use vstd::arithmetic::power2::pow2;
use vstd::prelude::*;
use vstd::string::*;

use super::account_pool::AccountPoolView;
use super::laws::PoolOp;
use super::state::{is_first, lemma_position, PoolView};
use crate::account::AccountView;

verus! {

impl PoolView {
    /// Account `i` stands for an address: of those that have it, the last with an index and the
    /// first without one.
    pub open spec fn stands_for(self, i: int, email: Seq<char>) -> bool {
        &&& 0 <= i < self.accounts.len()
        &&& self.accounts[i].email == email
        &&& forall|j: int|
            0 <= j < self.accounts.len() && (#[trigger] self.accounts[j]).email == email
                ==> if self.use_index {
                j <= i
            } else {
                i <= j
            }
    }

    /// No account has the address.
    pub open spec fn lacks(self, email: Seq<char>) -> bool {
        forall|j: int| 0 <= j < self.accounts.len() ==> (#[trigger] self.accounts[j]).email != email
    }

    /// Of all accounts only account `i` has changed.
    pub open spec fn differs_at(self, before: PoolView, i: int) -> bool {
        &&& self.accounts.len() == before.accounts.len()
        &&& forall|j: int|
            0 <= j < self.accounts.len() && j != i ==> #[trigger] self.accounts[j]
                == before.accounts[j]
    }

    /// The limits are the same.
    pub open spec fn same_limits(self, before: PoolView) -> bool {
        &&& self.max_inflight_per_account == before.max_inflight_per_account
        &&& self.global_max_inflight == before.global_max_inflight
        &&& self.max_queue_size == before.max_queue_size
        &&& self.admin_global == before.admin_global
        &&& self.use_index == before.use_index
    }
}

impl AccountPoolView {
    /// The settings and the queue are the same.
    pub open spec fn same_settings(self, before: AccountPoolView) -> bool {
        self == before.with_state(self.state)
    }
}

/// The account that stands for an address is the one that is found by it.
pub proof fn lemma_stands_for(p: PoolView, i: int, email: Seq<char>)
    requires
        p.wf(),
    ensures
        p.stands_for(i, email) <==> p.position(email) == Some(i),
        p.lacks(email) <==> p.position(email) is None,
        p.stands_for(i, email) ==> p.token_of(email) == Some(p.accounts[i].token),
{
    lemma_position(p, email);
    if p.stands_for(i, email) {
        assert(p.accounts[i].email == email);
        if p.idx is None {
            assert forall|j: int| 0 <= j < i implies (#[trigger] p.accounts[j]).email != email by {}
            assert(is_first(p.accounts, email, i));
            let k = choose|k: int| is_first(p.accounts, email, k);
            assert(is_first(p.accounts, email, k));
            assert(k == i);
        }
    }
    if p.position(email) == Some(i) {
        if p.idx is None {
            assert(is_first(p.accounts, email, i));
        }
        assert forall|j: int|
            0 <= j < p.accounts.len() && (#[trigger] p.accounts[j]).email == email implies if p.use_index {
            j <= i
        } else {
            i <= j
        } by {}
    }
}

/// Giving an account back: it carries one request less, never less than none, and its request has
/// finished now. The pool carries one less too.
pub proof fn lemma_release_effect(p: AccountPoolView, email: Seq<char>, i: int, now: int)
    requires
        p.state.wf(),
        p.state.global_in_use >= 0,
    ensures
        ({
            let q = p.after(PoolOp::Release { email }, now);
            let a = p.state.accounts[i];
            let b = q.state.accounts[i];
            &&& q.same_settings(p)
            &&& q.state.same_limits(p.state)
            &&& q.state.sticky_email == p.state.sticky_email
            &&& p.state.global_in_use > 0 ==> q.state.global_in_use == p.state.global_in_use - 1
            &&& p.state.global_in_use == 0 ==> q.state.global_in_use == 0
            &&& p.state.lacks(email) ==> q.state.accounts == p.state.accounts
            &&& p.state.stands_for(i, email) && a.inflight >= 0 ==> {
                &&& q.state.differs_at(p.state, i)
                &&& a.inflight > 0 ==> b.inflight == a.inflight - 1
                &&& a.inflight == 0 ==> b.inflight == 0
                &&& b.last_request_finished == now
                &&& b == AccountView {
                    inflight: b.inflight,
                    last_request_finished: b.last_request_finished,
                    ..a
                }
            }
        }),
{
    lemma_stands_for(p.state, i, email);
}

/// A rate limit: the account rests for the base cooldown, twice as long for each rate limit in a
/// row before this one, but no longer than the maximum, and for the whole seconds of the jitter
/// on top. The pool no longer sticks to it.
pub proof fn lemma_rate_limit_effect(
    p: AccountPoolView,
    email: Seq<char>,
    jitter_ms: u64,
    i: int,
    now: int,
)
    requires
        p.state.wf(),
        p.base_cooldown >= 0,
        p.max_cooldown >= 0,
    ensures
        ({
            let q = p.after(PoolOp::MarkRateLimited { email, jitter_ms: jitter_ms as int }, now);
            let a = p.state.accounts[i];
            let b = q.state.accounts[i];
            let grown = p.base_cooldown * pow2(a.rate_limit_strikes as nat);
            &&& q.same_settings(p)
            &&& q.state.same_limits(p.state)
            &&& q.state.global_in_use == p.state.global_in_use
            &&& q.state.sticky_email != Some(email)
            &&& p.state.sticky_email != Some(email) ==> q.state.sticky_email
                == p.state.sticky_email
            &&& p.state.lacks(email) ==> q.state.accounts == p.state.accounts
            &&& p.state.stands_for(i, email) && a.rate_limit_strikes >= 0 ==> {
                &&& q.state.differs_at(p.state, i)
                &&& b.rate_limit_strikes == a.rate_limit_strikes + 1
                &&& b.status_code == "rate_limited"@
                &&& grown <= p.max_cooldown ==> b.rate_limited_until == now + grown * 1_000_000
                    + (jitter_ms / 1000) * 1_000_000
                &&& grown > p.max_cooldown ==> b.rate_limited_until == now + p.max_cooldown
                    * 1_000_000 + (jitter_ms / 1000) * 1_000_000
                &&& b == AccountView {
                    rate_limit_strikes: b.rate_limit_strikes,
                    status_code: b.status_code,
                    rate_limited_until: b.rate_limited_until,
                    ..a
                }
            }
        }),
{
    lemma_stands_for(p.state, i, email);
}

/// A failure: the account notes the reason, an authentication error where none is given, and
/// what was said if anything was. It goes on working only after an authentication error, and only
/// as long as fewer failures than the threshold (at least one) came in a row.
pub proof fn lemma_failure_effect(
    p: AccountPoolView,
    email: Seq<char>,
    reason: Seq<char>,
    err: Seq<char>,
    i: int,
    now: int,
)
    requires
        p.state.wf(),
    ensures
        ({
            let q = p.after(PoolOp::MarkInvalid { email, reason, err }, now);
            let a = p.state.accounts[i];
            let b = q.state.accounts[i];
            &&& q.same_settings(p)
            &&& q.state.same_limits(p.state)
            &&& q.state.global_in_use == p.state.global_in_use
            &&& q.state.sticky_email != Some(email)
            &&& p.state.sticky_email != Some(email) ==> q.state.sticky_email
                == p.state.sticky_email
            &&& p.state.lacks(email) ==> q.state.accounts == p.state.accounts
            &&& p.state.stands_for(i, email) && a.consecutive_failures >= 0 ==> {
                &&& q.state.differs_at(p.state, i)
                &&& b.consecutive_failures == a.consecutive_failures + 1
                &&& reason.len() > 0 ==> b.status_code == reason
                &&& reason.len() == 0 ==> b.status_code == "auth_error"@
                &&& err.len() > 0 ==> b.last_error == err
                &&& err.len() == 0 ==> b.last_error == a.last_error
                &&& !a.valid ==> !b.valid
                &&& reason != "auth_error"@ ==> !b.valid
                &&& a.valid && reason == "auth_error"@ ==> (b.valid <==> a.consecutive_failures + 1
                    < p.auth_error_threshold)
                &&& reason == "pending_activation"@ ==> b.activation_pending
                &&& reason != "pending_activation"@ ==> b.activation_pending
                    == a.activation_pending
                &&& b == AccountView {
                    consecutive_failures: b.consecutive_failures,
                    status_code: b.status_code,
                    last_error: b.last_error,
                    valid: b.valid,
                    activation_pending: b.activation_pending,
                    ..a
                }
            }
        }),
{
    lemma_stands_for(p.state, i, email);
}

/// A success: the counts of failures and rate limits start again, a rate limit that was in force
/// ends, and an account that works says so.
pub proof fn lemma_success_effect(p: AccountPoolView, email: Seq<char>, i: int, now: int)
    requires
        p.state.wf(),
    ensures
        ({
            let q = p.after(PoolOp::MarkSuccess { email }, now);
            let a = p.state.accounts[i];
            let b = q.state.accounts[i];
            &&& q.same_settings(p)
            &&& q.state.same_limits(p.state)
            &&& q.state.global_in_use == p.state.global_in_use
            &&& q.state.sticky_email == p.state.sticky_email
            &&& p.state.lacks(email) ==> q.state.accounts == p.state.accounts
            &&& p.state.stands_for(i, email) ==> {
                &&& q.state.differs_at(p.state, i)
                &&& b.consecutive_failures == 0
                &&& b.rate_limit_strikes == 0
                &&& a.status_code == "rate_limited"@ ==> b.rate_limited_until == 0
                &&& a.status_code != "rate_limited"@ ==> b.rate_limited_until
                    == a.rate_limited_until
                &&& a.valid ==> b.status_code == "valid"@
                &&& !a.valid ==> b.status_code == a.status_code
                &&& b == AccountView {
                    consecutive_failures: 0,
                    rate_limit_strikes: 0,
                    rate_limited_until: b.rate_limited_until,
                    status_code: b.status_code,
                    ..a
                }
            }
        }),
{
    lemma_stands_for(p.state, i, email);
}

/// A check of an account: it works or not as the check says, with the status and the error that
/// came with it. One that works starts again without failures and waits for no activation.
pub proof fn lemma_check_effect(
    p: AccountPoolView,
    email: Seq<char>,
    valid: bool,
    status_code: Seq<char>,
    error: Seq<char>,
    i: int,
    now: int,
)
    requires
        p.state.wf(),
    ensures
        ({
            let q = p.after(PoolOp::ApplyVerify { email, valid, status_code, error }, now);
            let a = p.state.accounts[i];
            let b = q.state.accounts[i];
            &&& q.same_settings(p)
            &&& q.state.same_limits(p.state)
            &&& q.state.global_in_use == p.state.global_in_use
            &&& q.state.sticky_email == p.state.sticky_email
            &&& p.state.lacks(email) ==> q.state.accounts == p.state.accounts
            &&& p.state.stands_for(i, email) ==> {
                &&& q.state.differs_at(p.state, i)
                &&& b.valid == valid
                &&& b.status_code == status_code
                &&& b.last_error == error
                &&& valid ==> b.consecutive_failures == 0 && b.rate_limit_strikes == 0
                    && !b.activation_pending
                &&& !valid ==> b.consecutive_failures == a.consecutive_failures + 1
                    && b.rate_limit_strikes == a.rate_limit_strikes && b.activation_pending
                    == a.activation_pending
                &&& b == AccountView {
                    valid: b.valid,
                    status_code: b.status_code,
                    last_error: b.last_error,
                    consecutive_failures: b.consecutive_failures,
                    rate_limit_strikes: b.rate_limit_strikes,
                    activation_pending: b.activation_pending,
                    ..a
                }
            }
        }),
{
    lemma_stands_for(p.state, i, email);
}

} // verus!
