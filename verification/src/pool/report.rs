//! What the pool tells of itself.

use vstd::prelude::*;
use vstd::string::*;

use super::account_pool::AccountPool;
use crate::account::AccountView;

verus! {

/// `i` is the first account that can be used outside the pool.
pub open spec fn is_first_usable(accounts: Seq<AccountView>, now: int, i: int) -> bool {
    &&& 0 <= i < accounts.len()
    &&& accounts[i].is_usable(now)
    &&& forall|j: int| 0 <= j < i ==> !(#[trigger] accounts[j]).is_usable(now)
}

/// Address and token of each account that can be used outside the pool, in order.
pub open spec fn usable_pairs(accounts: Seq<AccountView>, now: int) -> Seq<(Seq<char>, Seq<char>)>
    decreases accounts.len(),
{
    if accounts.len() == 0 {
        Seq::empty()
    } else {
        let before = usable_pairs(accounts.drop_last(), now);
        let a = accounts.last();
        if a.is_usable(now) {
            before.push((a.email, a.token))
        } else {
            before
        }
    }
}

/// How an account counts in the summary.
#[derive(Clone, Copy, PartialEq, Eq, Structural, Debug)]
pub enum Health {
    RateLimited,
    Valid,
    Invalid,
}

impl AccountView {
    /// A rate limit in force counts before anything else.
    pub open spec fn health(self, now: int) -> Health {
        if self.rate_limited_until > now {
            Health::RateLimited
        } else if self.valid {
            Health::Valid
        } else {
            Health::Invalid
        }
    }

    /// The account carries load or does not work as it should.
    pub open spec fn is_notable(self, now: int) -> bool {
        self.inflight > 0 || self.rate_limited_until > now || !self.valid
    }
}

/// How many accounts are in this health.
pub open spec fn health_count(accounts: Seq<AccountView>, now: int, h: Health) -> nat
    decreases accounts.len(),
{
    if accounts.len() == 0 {
        0
    } else {
        health_count(accounts.drop_last(), now, h) + if accounts.last().health(now) == h {
            1nat
        } else {
            0nat
        }
    }
}

/// How many requests the accounts carry together.
pub open spec fn total_inflight(accounts: Seq<AccountView>) -> int
    decreases accounts.len(),
{
    if accounts.len() == 0 {
        0
    } else {
        total_inflight(accounts.drop_last()) + accounts.last().inflight
    }
}

/// A summary of the pool.
#[derive(Clone, Copy, PartialEq, Eq, Structural, Debug)]
pub struct PoolStatus {
    pub total: usize,
    pub valid: usize,
    pub rate_limited: usize,
    pub invalid: usize,
    pub in_use: i128,
    pub global_in_use: i64,
    pub waiting: usize,
    pub max_inflight_per_account: i64,
    pub max_queue_size: i64,
    pub global_max_inflight: i64,
}

/// How many accounts the detailed report lists at most.
pub const MAX_REPORTED: usize = 500;

/// One line of the detailed report.
pub struct AccountStatus {
    pub email: String,
    pub valid: bool,
    pub activation_pending: bool,
    pub status_code: String,
    pub rate_limited_until: u128,
    pub inflight: i64,
    pub max_inflight: i64,
    pub consecutive_failures: i64,
    pub rate_limit_strikes: i64,
    pub last_request_finished: u128,
}

/// One line of the detailed report, as a mathematical value.
#[verifier::ext_equal]
pub struct AccountStatusView {
    pub email: Seq<char>,
    pub valid: bool,
    pub activation_pending: bool,
    pub status_code: Seq<char>,
    pub rate_limited_until: int,
    pub inflight: int,
    pub max_inflight: int,
    pub consecutive_failures: int,
    pub rate_limit_strikes: int,
    pub last_request_finished: int,
}

impl View for AccountStatus {
    type V = AccountStatusView;

    open spec fn view(&self) -> AccountStatusView {
        AccountStatusView {
            email: self.email@,
            valid: self.valid,
            activation_pending: self.activation_pending,
            status_code: self.status_code@,
            rate_limited_until: self.rate_limited_until as int,
            inflight: self.inflight as int,
            max_inflight: self.max_inflight as int,
            consecutive_failures: self.consecutive_failures as int,
            rate_limit_strikes: self.rate_limit_strikes as int,
            last_request_finished: self.last_request_finished as int,
        }
    }
}

impl AccountView {
    /// The line of the report about this account.
    pub open spec fn status_line(self, cap: int) -> AccountStatusView {
        AccountStatusView {
            email: self.email,
            valid: self.valid,
            activation_pending: self.activation_pending,
            status_code: self.status_code,
            rate_limited_until: self.rate_limited_until,
            inflight: self.inflight,
            max_inflight: cap,
            consecutive_failures: self.consecutive_failures,
            rate_limit_strikes: self.rate_limit_strikes,
            last_request_finished: self.last_request_finished,
        }
    }
}

/// The lines about the notable accounts, in order, up to the most that are listed.
pub open spec fn notable_lines(accounts: Seq<AccountView>, cap: int, now: int) -> Seq<
    AccountStatusView,
>
    decreases accounts.len(),
{
    if accounts.len() == 0 {
        Seq::empty()
    } else {
        let before = notable_lines(accounts.drop_last(), cap, now);
        let a = accounts.last();
        if a.is_notable(now) && before.len() < MAX_REPORTED {
            before.push(a.status_line(cap))
        } else {
            before
        }
    }
}

/// A full report stays as it is, however many accounts follow.
proof fn lemma_lines_full(accounts: Seq<AccountView>, cap: int, now: int, n: int)
    requires
        0 <= n <= accounts.len(),
        notable_lines(accounts.take(n), cap, now).len() >= MAX_REPORTED,
    ensures
        notable_lines(accounts, cap, now) == notable_lines(accounts.take(n), cap, now),
    decreases accounts.len(),
{
    if n == accounts.len() {
        assert(accounts.take(n) =~= accounts);
    } else {
        assert(accounts.drop_last().take(n) =~= accounts.take(n));
        lemma_lines_full(accounts.drop_last(), cap, now, n);
    }
}

/// The first account that can be used outside the pool is the first that is listed.
proof fn lemma_first_pair(accounts: Seq<AccountView>, now: int)
    ensures
        usable_pairs(accounts, now).len() == 0 ==> forall|i: int|
            0 <= i < accounts.len() ==> !(#[trigger] accounts[i]).is_usable(now),
        usable_pairs(accounts, now).len() > 0 ==> exists|i: int| #[trigger]
            is_first_usable(accounts, now, i) && usable_pairs(accounts, now)[0] == (
                accounts[i].email,
                accounts[i].token,
            ),
    decreases accounts.len(),
{
    if accounts.len() > 0 {
        let before = accounts.drop_last();
        let n = accounts.len() - 1;
        lemma_first_pair(before, now);
        if usable_pairs(before, now).len() > 0 {
            let i = choose|i: int| #[trigger]
                is_first_usable(before, now, i) && usable_pairs(before, now)[0] == (
                    before[i].email,
                    before[i].token,
                );
            assert forall|j: int| 0 <= j < i implies !(#[trigger] accounts[j]).is_usable(now) by {
                assert(before[j] == accounts[j]);
            }
            assert(is_first_usable(accounts, now, i));
        } else {
            assert forall|i: int| 0 <= i < n implies !(#[trigger] accounts[i]).is_usable(now) by {
                assert(before[i] == accounts[i]);
            }
            if accounts.last().is_usable(now) {
                assert(is_first_usable(accounts, now, n));
            }
        }
    }
}

impl AccountPool {
    fn first_usable(&self, now: u64) -> (r: Option<usize>)
        ensures
            match r {
                Some(i) => is_first_usable(self@.state.accounts, now as int, i as int),
                None => forall|i: int| !is_first_usable(self@.state.accounts, now as int, i),
            },
    {
        let mut i: usize = 0;
        while i < self.state.accounts.len()
            invariant
                i <= self.state.accounts@.len(),
                forall|j: int|
                    0 <= j < i ==> !(#[trigger] self@.state.accounts[j]).is_usable(now as int),
            decreases self.state.accounts@.len() - i,
        {
            if self.state.accounts[i].is_usable(now) {
                assert(self@.state.accounts[i as int].is_usable(now as int));
                return Some(i);
            }
            i = i + 1;
        }
        None
    }

    /// Address and token of the first account that is healthy and has a token.
    pub fn any_valid_account(&self, now: u64) -> (r: Option<(String, String)>)
        ensures
            match r {
                Some(p) => exists|i: int| #[trigger]
                    is_first_usable(self@.state.accounts, now as int, i) && p.0@
                        == self@.state.accounts[i].email && p.1@ == self@.state.accounts[i].token,
                None => forall|i: int| !is_first_usable(self@.state.accounts, now as int, i),
            },
            ({
                let pairs = usable_pairs(self@.state.accounts, now as int);
                match r {
                    Some(p) => pairs.len() > 0 && pairs[0] == (p.0@, p.1@),
                    None => pairs.len() == 0,
                }
            }),
    {
        proof {
            lemma_first_pair(self@.state.accounts, now as int);
        }
        match self.first_usable(now) {
            Some(i) => {
                let a = &self.state.accounts[i];
                assert(self@.state.accounts[i as int] == a@);
                Some((a.email.clone(), a.token.clone()))
            },
            None => None,
        }
    }

    /// The token of the first account that is healthy and has one.
    pub fn any_valid_token(&self, now: u64) -> (r: Option<String>)
        ensures
            match r {
                Some(t) => exists|i: int| #[trigger]
                    is_first_usable(self@.state.accounts, now as int, i) && t@
                        == self@.state.accounts[i].token,
                None => forall|i: int| !is_first_usable(self@.state.accounts, now as int, i),
            },
            ({
                let pairs = usable_pairs(self@.state.accounts, now as int);
                match r {
                    Some(t) => pairs.len() > 0 && pairs[0].1 == t@,
                    None => pairs.len() == 0,
                }
            }),
    {
        proof {
            lemma_first_pair(self@.state.accounts, now as int);
        }
        match self.first_usable(now) {
            Some(i) => {
                let a = &self.state.accounts[i];
                assert(self@.state.accounts[i as int] == a@);
                Some(a.token.clone())
            },
            None => None,
        }
    }

    /// Address and token of each account that is healthy and has a token.
    pub fn all_emails_tokens(&self, now: u64) -> (r: Vec<(String, String)>)
        ensures
            r@.map_values(|p: (String, String)| (p.0@, p.1@)) == usable_pairs(
                self@.state.accounts,
                now as int,
            ),
    {
        let ghost all = self@.state.accounts;
        let mut out: Vec<(String, String)> = Vec::new();
        let mut i: usize = 0;
        assert(all.take(0) =~= Seq::empty());
        while i < self.state.accounts.len()
            invariant
                i <= self.state.accounts@.len(),
                all == self@.state.accounts,
                out@.map_values(|p: (String, String)| (p.0@, p.1@)) == usable_pairs(
                    all.take(i as int),
                    now as int,
                ),
            decreases self.state.accounts@.len() - i,
        {
            let a = &self.state.accounts[i];
            let ghost before = out@;
            assert(all.take(i + 1).drop_last() =~= all.take(i as int));
            assert(all.take(i + 1).last() == a@);
            if a.is_usable(now) {
                out.push((a.email.clone(), a.token.clone()));
                assert(out@.map_values(|p: (String, String)| (p.0@, p.1@)) =~= before.map_values(
                    |p: (String, String)| (p.0@, p.1@),
                ).push((a@.email, a@.token)));
            }
            i = i + 1;
        }
        assert(all.take(i as int) =~= all);
        out
    }

    /// A summary of the pool.
    pub fn status(&self, now: u64) -> (r: PoolStatus)
        ensures
            r.total == self@.state.accounts.len(),
            r.valid == health_count(self@.state.accounts, now as int, Health::Valid),
            r.rate_limited == health_count(self@.state.accounts, now as int, Health::RateLimited),
            r.invalid == health_count(self@.state.accounts, now as int, Health::Invalid),
            r.in_use == total_inflight(self@.state.accounts),
            r.global_in_use == self@.state.global_in_use,
            r.waiting == self@.waiting,
            r.max_inflight_per_account == self@.state.max_inflight_per_account,
            r.max_queue_size == self@.state.max_queue_size,
            r.global_max_inflight == self@.state.global_max_inflight,
    {
        let ghost all = self@.state.accounts;
        let n: usize = self.state.accounts.len();
        let mut valid: usize = 0;
        let mut rate_limited: usize = 0;
        let mut invalid: usize = 0;
        let mut in_use: i128 = 0;
        let mut i: usize = 0;
        assert(all.take(0) =~= Seq::empty());
        while i < n
            invariant
                n == self.state.accounts@.len(),
                i <= n,
                all == self@.state.accounts,
                valid == health_count(all.take(i as int), now as int, Health::Valid),
                rate_limited == health_count(all.take(i as int), now as int, Health::RateLimited),
                invalid == health_count(all.take(i as int), now as int, Health::Invalid),
                valid + rate_limited + invalid == i,
                in_use == total_inflight(all.take(i as int)),
                -0x8000_0000_0000_0000 * i <= in_use <= 0x8000_0000_0000_0000 * i,
            decreases n - i,
        {
            let a = &self.state.accounts[i];
            assert(all.take(i + 1).drop_last() =~= all.take(i as int));
            assert(all.take(i + 1).last() == a@);
            if a.rate_limited_until > now as u128 {
                rate_limited = rate_limited + 1;
            } else if a.valid {
                valid = valid + 1;
            } else {
                invalid = invalid + 1;
            }
            in_use = in_use + a.inflight as i128;
            i = i + 1;
        }
        assert(all.take(n as int) =~= all);
        PoolStatus {
            total: n,
            valid,
            rate_limited,
            invalid,
            in_use,
            global_in_use: self.state.global_in_use,
            waiting: self.waiting,
            max_inflight_per_account: self.state.max_inflight_per_account,
            max_queue_size: self.state.max_queue_size,
            global_max_inflight: self.state.global_max_inflight,
        }
    }

    /// The accounts that carry load or do not work as they should, up to a limit.
    pub fn per_account_status(&self, now: u64) -> (r: Vec<AccountStatus>)
        ensures
            r@.map_values(|s: AccountStatus| s@) == notable_lines(
                self@.state.accounts,
                self@.state.max_inflight_per_account,
                now as int,
            ),
    {
        let ghost all = self@.state.accounts;
        let cap: i64 = self.state.max_inflight_per_account;
        let mut out: Vec<AccountStatus> = Vec::new();
        let mut i: usize = 0;
        assert(all.take(0) =~= Seq::empty());
        while i < self.state.accounts.len() && out.len() < MAX_REPORTED
            invariant
                i <= self.state.accounts@.len(),
                all == self@.state.accounts,
                out@.map_values(|s: AccountStatus| s@) == notable_lines(
                    all.take(i as int),
                    cap as int,
                    now as int,
                ),
            decreases self.state.accounts@.len() - i,
        {
            let a = &self.state.accounts[i];
            let ghost before = out@;
            assert(all.take(i + 1).drop_last() =~= all.take(i as int));
            assert(all.take(i + 1).last() == a@);
            if a.inflight > 0 || a.rate_limited_until > now as u128 || !a.valid {
                let line = AccountStatus {
                    email: a.email.clone(),
                    valid: a.valid,
                    activation_pending: a.activation_pending,
                    status_code: a.status_code.clone(),
                    rate_limited_until: a.rate_limited_until,
                    inflight: a.inflight,
                    max_inflight: cap,
                    consecutive_failures: a.consecutive_failures,
                    rate_limit_strikes: a.rate_limit_strikes,
                    last_request_finished: a.last_request_finished,
                };
                out.push(line);
                assert(out@.map_values(|s: AccountStatus| s@) =~= before.map_values(
                    |s: AccountStatus| s@,
                ).push(a@.status_line(cap as int)));
            }
            i = i + 1;
        }
        proof {
            assert(all.take(all.len() as int) =~= all);
            if i < all.len() {
                lemma_lines_full(all, cap as int, now as int, i as int);
            }
        }
        out
    }
}

} // verus!
