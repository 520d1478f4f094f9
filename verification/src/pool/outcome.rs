//! What the outcome of a request does to its account.

use vstd::arithmetic::power2::{lemma_pow2_pos, lemma_pow2_unfold, pow2};
use vstd::prelude::*;
use vstd::string::*;

use super::acquire::lemma_taken_fits;
use super::state::{is_first, lemma_position, PoolState, PoolView};
use crate::account::AccountView;
use crate::text::str_eq;

verus! {

/// How often the cooldown has doubled after so many rate limits in a row.
pub open spec fn doublings(strikes: int) -> nat {
    if strikes >= 1 {
        (strikes - 1) as nat
    } else {
        0
    }
}

/// The cooldown after so many rate limits in a row, in seconds: the base for the first, twice
/// as much for each more, up to the maximum.
pub open spec fn cooldown_secs(base: int, max: int, strikes: int) -> int {
    let grown = base * pow2(doublings(strikes));
    if grown <= max {
        grown
    } else {
        max
    }
}

/// The cooldown after so many rate limits in a row.
pub fn cooldown(base: u64, max: u64, strikes: i64) -> (r: u64)
    ensures
        r == cooldown_secs(base as int, max as int, strikes as int),
{
    let mut c: u64 = if base <= max {
        base
    } else {
        max
    };
    let mut k: i64 = 1;
    assert(pow2(0) == 1) by {
        vstd::arithmetic::power2::lemma2_to64();
    }
    assert(base * 1 == base);
    assert(doublings(1) == 0);
    while k < strikes && c != 0 && c < max
        invariant
            1 <= k,
            k <= strikes || k == 1,
            c == cooldown_secs(base as int, max as int, k as int),
        decreases strikes - k,
    {
        proof {
            lemma_pow2_unfold(k as nat);
            lemma_pow2_pos((k - 1) as nat);
            let p = pow2((k - 1) as nat) as int;
            assert(base * (2 * p) == 2 * (base * p)) by (nonlinear_arith);
        }
        c = if c <= max - c {
            2 * c
        } else {
            max
        };
        k = k + 1;
    }
    proof {
        if k < strikes {
            lemma_cooldown_settled(base as int, max as int, k as int, strikes as int);
        } else if strikes < 1 {
            assert(doublings(strikes as int) == 0);
        }
    }
    c
}

/// A cooldown that has reached the maximum, or is none, stays so.
proof fn lemma_cooldown_settled(base: int, max: int, j: int, k: int)
    requires
        0 <= base,
        0 <= max,
        1 <= j <= k,
        cooldown_secs(base, max, j) == 0 || cooldown_secs(base, max, j) == max,
    ensures
        cooldown_secs(base, max, k) == cooldown_secs(base, max, j),
    decreases k - j,
{
    if j < k {
        lemma_cooldown_settled(base, max, j, k - 1);
        let n = (k - 1) as nat;
        lemma_pow2_unfold(n);
        lemma_pow2_pos((n - 1) as nat);
        let p = pow2((n - 1) as nat) as int;
        assert(base * (2 * p) == 2 * (base * p)) by (nonlinear_arith);
        assert(base * p >= 0) by (nonlinear_arith)
            requires
                base >= 0,
                p > 0,
        ;
    }
}

impl AccountView {
    /// The account with one request less.
    pub open spec fn released(self, now: int) -> AccountView {
        AccountView {
            inflight: if self.inflight > 1 {
                self.inflight - 1
            } else {
                0
            },
            last_request_finished: now,
            ..self
        }
    }

    /// The account after one more rate limit: it rests for the cooldown and the jitter, which
    /// counts in whole seconds.
    pub open spec fn rate_limited(self, base: int, max: int, jitter_ms: int, now: int) -> AccountView {
        let strikes = self.rate_limit_strikes + 1;
        AccountView {
            rate_limit_strikes: strikes,
            rate_limited_until: now + (cooldown_secs(base, max, strikes) + jitter_ms / 1000)
                * 1_000_000,
            status_code: "rate_limited"@,
            ..self
        }
    }

    /// The account after a failure. It stops working at once unless the reason is an
    /// authentication error; such errors count up to the threshold.
    pub open spec fn invalidated(
        self,
        reason: Seq<char>,
        err: Seq<char>,
        threshold: int,
    ) -> AccountView {
        let failures = self.consecutive_failures + 1;
        AccountView {
            status_code: if reason.len() == 0 {
                "auth_error"@
            } else {
                reason
            },
            consecutive_failures: failures,
            last_error: if err.len() > 0 {
                err
            } else {
                self.last_error
            },
            valid: self.valid && reason == "auth_error"@ && failures < threshold,
            activation_pending: self.activation_pending || reason == "pending_activation"@,
            ..self
        }
    }

    /// The account after a success: the counts of failures start again, and a rate limit ends.
    pub open spec fn succeeded(self) -> AccountView {
        AccountView {
            consecutive_failures: 0,
            rate_limit_strikes: 0,
            rate_limited_until: if self.status_code == "rate_limited"@ {
                0
            } else {
                self.rate_limited_until
            },
            status_code: if self.valid {
                "valid"@
            } else {
                self.status_code
            },
            ..self
        }
    }

    /// The account after it has been checked.
    pub open spec fn checked(self, valid: bool, status_code: Seq<char>, error: Seq<char>) -> AccountView {
        AccountView {
            valid,
            status_code,
            last_error: error,
            activation_pending: self.activation_pending && !valid,
            consecutive_failures: if valid {
                0
            } else {
                self.consecutive_failures + 1
            },
            rate_limit_strikes: if valid {
                0
            } else {
                self.rate_limit_strikes
            },
            ..self
        }
    }
}

impl PoolView {
    /// The state without a sticky account where it is this one.
    pub open spec fn unstuck(self, email: Seq<char>) -> PoolView {
        PoolView {
            sticky_email: if self.sticky_email == Some(email) {
                None
            } else {
                self.sticky_email
            },
            ..self
        }
    }

    /// The state after a request on an account has ended.
    pub open spec fn released(self, email: Seq<char>, min_ms: int, now: int) -> PoolView {
        let p = match self.position(email) {
            Some(i) => self.with_account(i, self.accounts[i].released(now)).reindexed(
                email,
                min_ms,
                now,
            ),
            None => self,
        };
        PoolView {
            global_in_use: if self.global_in_use > 1 {
                self.global_in_use - 1
            } else {
                0
            },
            ..p
        }
    }

    /// The state after an account has met a rate limit.
    pub open spec fn rate_limited(
        self,
        email: Seq<char>,
        base: int,
        max: int,
        jitter_ms: int,
        min_ms: int,
        now: int,
    ) -> PoolView {
        match self.position(email) {
            Some(i) => self.unstuck(email).with_account(
                i,
                self.accounts[i].rate_limited(base, max, jitter_ms, now),
            ).reindexed(email, min_ms, now),
            None => self.unstuck(email),
        }
    }

    /// The state after a failure of an account.
    pub open spec fn invalidated(
        self,
        email: Seq<char>,
        reason: Seq<char>,
        err: Seq<char>,
        threshold: int,
        min_ms: int,
        now: int,
    ) -> PoolView {
        match self.position(email) {
            Some(i) => self.unstuck(email).with_account(
                i,
                self.accounts[i].invalidated(reason, err, threshold),
            ).reindexed(email, min_ms, now),
            None => self.unstuck(email),
        }
    }

    /// The state after a success of an account.
    pub open spec fn succeeded(self, email: Seq<char>, min_ms: int, now: int) -> PoolView {
        match self.position(email) {
            Some(i) => self.with_account(i, self.accounts[i].succeeded()).reindexed(
                email,
                min_ms,
                now,
            ),
            None => self,
        }
    }

    /// The state after an account has been checked.
    pub open spec fn checked(
        self,
        email: Seq<char>,
        valid: bool,
        status_code: Seq<char>,
        error: Seq<char>,
        min_ms: int,
        now: int,
    ) -> PoolView {
        match self.position(email) {
            Some(i) => self.with_account(
                i,
                self.accounts[i].checked(valid, status_code, error),
            ).reindexed(email, min_ms, now),
            None => self,
        }
    }
}

/// Lists with the same addresses have the same first account for an address.
proof fn lemma_first_same(xs: Seq<AccountView>, ys: Seq<AccountView>, email: Seq<char>)
    requires
        xs.len() == ys.len(),
        forall|j: int|
            #![trigger xs[j]]
            #![trigger ys[j]]
            0 <= j < xs.len() ==> xs[j].email == ys[j].email,
    ensures
        forall|k: int| is_first(xs, email, k) ==> #[trigger] is_first(ys, email, k),
{
    assert forall|k: int| is_first(xs, email, k) implies #[trigger] is_first(ys, email, k) by {
        assert(xs[k].email == ys[k].email);
        assert forall|j: int| 0 <= j < k implies (#[trigger] ys[j]).email != email by {
            assert(xs[j].email == ys[j].email);
        }
    }
}

/// Replacing an account by one with the same address keeps the state well formed.
pub proof fn lemma_replaced_wf(p: PoolView, i: int, b: AccountView)
    requires
        p.wf(),
        0 <= i < p.accounts.len(),
        p.accounts[i].email == b.email,
    ensures
        p.with_account(i, b).wf(),
        p.with_account(i, b).position(b.email) == p.position(b.email),
{
    let q = p.with_account(i, b);
    match p.idx {
        Some(ix) => {
            assert forall|e: Seq<char>| #[trigger] ix.pos.contains_key(e) implies ix.pos[e]
                < q.accounts.len() && q.accounts[ix.pos[e] as int].email == e by {}
            assert forall|k: int| 0 <= k < q.accounts.len() implies ix.pos.contains_key(
                (#[trigger] q.accounts[k]).email,
            ) && k <= ix.pos[q.accounts[k].email] by {
                assert(ix.pos.contains_key(p.accounts[k].email));
            }
        },
        None => {
            lemma_first_same(p.accounts, q.accounts, b.email);
            lemma_first_same(q.accounts, p.accounts, b.email);
            if exists|k: int| is_first(p.accounts, b.email, k) {
                let k = choose|k: int| is_first(p.accounts, b.email, k);
                assert(is_first(q.accounts, b.email, k));
                let j = choose|j: int| is_first(q.accounts, b.email, j);
                assert(is_first(q.accounts, b.email, j));
                assert(j == k) by {
                    if j < k {
                        assert(q.accounts[j].email == p.accounts[j].email);
                    } else if k < j {
                        assert(q.accounts[k].email == b.email);
                    }
                }
            } else if exists|j: int| is_first(q.accounts, b.email, j) {
                let j = choose|j: int| is_first(q.accounts, b.email, j);
                assert(is_first(p.accounts, b.email, j));
            }
        },
    }
}

/// Replacing the account of an address and putting the new one in its place keeps the index
/// about its accounts and in agreement with them.
pub proof fn lemma_updated(
    p: PoolView,
    email: Seq<char>,
    b: AccountView,
    min_ms: int,
    now: int,
)
    requires
        p.wf(),
        p.position(email) is Some,
        b.email == email,
    ensures
        ({
            let q = p.with_account(p.position(email)->0, b).reindexed(email, min_ms, now);
            &&& q.wf()
            &&& p.loads_agree() ==> q.loads_agree()
            &&& p.agrees(min_ms, now) ==> q.agrees(min_ms, now)
        }),
{
    lemma_position(p, email);
    match p.idx {
        Some(ix) => {
            assert(ix.pos.contains_key(email));
            lemma_taken_fits(
                ix,
                p.accounts,
                email,
                b,
                p.max_inflight_per_account,
                min_ms,
                now,
            );
        },
        None => {},
    }
}

impl PoolState {
    /// Forgets the sticky account where it is this one.
    pub fn unstick(&mut self, email: &str)
        requires
            old(self).wf(),
        ensures
            final(self)@ == old(self)@.unstuck(email@),
            final(self).wf(),
            old(self)@.loads_agree() ==> final(self)@.loads_agree(),
            final(self)@.position(email@) == old(self)@.position(email@),
    {
        let same = match self.sticky_email.as_ref() {
            Some(e) => str_eq(e.as_str(), email),
            None => false,
        };
        if same {
            self.sticky_email = None;
        }
        assert(self@.accounts =~= old(self)@.accounts);
        assert(self@ =~= old(self)@.unstuck(email@));
    }
}

} // verus!
