//! One upstream account: its credentials, its health and its load.
//!
//! Times are microseconds since the Unix epoch.

use vstd::prelude::*;
use vstd::string::*;

verus! {

/// The latest time that an account can hold.
pub const TIME_MAX: u128 = 0xffff_ffff_ffff_ffff_ffff_ffff_ffff_ffffu128;

/// An account, as a mathematical value.
#[verifier::ext_equal]
pub struct AccountView {
    pub email: Seq<char>,
    pub password: Seq<char>,
    pub token: Seq<char>,
    pub cookies: Seq<char>,
    pub username: Seq<char>,
    pub valid: bool,
    pub activation_pending: bool,
    pub status_code: Seq<char>,
    pub last_error: Seq<char>,
    pub inflight: int,
    pub rate_limited_until: int,
    pub last_used: int,
    pub last_request_started: int,
    pub last_request_finished: int,
    pub rate_limit_strikes: int,
    pub consecutive_failures: int,
}

/// An upstream account.
pub struct Account {
    pub email: String,
    pub password: String,
    pub token: String,
    pub cookies: String,
    pub username: String,
    /// False once the account is known not to work.
    pub valid: bool,
    pub activation_pending: bool,
    pub status_code: String,
    pub last_error: String,
    /// Requests that are under way on this account.
    pub inflight: i64,
    pub rate_limited_until: u128,
    pub last_used: u128,
    pub last_request_started: u128,
    pub last_request_finished: u128,
    /// Rate limits met in a row.
    pub rate_limit_strikes: i64,
    /// Failures met in a row.
    pub consecutive_failures: i64,
}

impl View for Account {
    type V = AccountView;

    open spec fn view(&self) -> AccountView {
        AccountView {
            email: self.email@,
            password: self.password@,
            token: self.token@,
            cookies: self.cookies@,
            username: self.username@,
            valid: self.valid,
            activation_pending: self.activation_pending,
            status_code: self.status_code@,
            last_error: self.last_error@,
            inflight: self.inflight as int,
            rate_limited_until: self.rate_limited_until as int,
            last_used: self.last_used as int,
            last_request_started: self.last_request_started as int,
            last_request_finished: self.last_request_finished as int,
            rate_limit_strikes: self.rate_limit_strikes as int,
            consecutive_failures: self.consecutive_failures as int,
        }
    }
}

/// The time `millis` milliseconds after `at`; the latest time if there is none so late.
pub open spec fn later_by(at: int, millis: int) -> int {
    if at + millis * 1000 > TIME_MAX {
        TIME_MAX as int
    } else {
        at + millis * 1000
    }
}

impl AccountView {
    /// The first moment at which a new request may start: no rate limit is in force and the
    /// least interval, where there is one, has passed since the last start.
    pub open spec fn next_available_at(self, min_ms: int) -> int {
        let spaced = later_by(self.last_request_started, min_ms);
        if min_ms <= 0 || self.rate_limited_until >= spaced {
            self.rate_limited_until
        } else {
            spaced
        }
    }

    /// Whether a request may start now, load aside.
    pub open spec fn is_available(self, min_ms: int, now: int) -> bool {
        self.valid && self.next_available_at(min_ms) <= now
    }

    /// Whether the account works and no rate limit is in force.
    pub open spec fn is_healthy(self, now: int) -> bool {
        self.valid && self.rate_limited_until <= now
    }

    /// Whether the account can be used outside the pool: it is healthy and has a token.
    pub open spec fn is_usable(self, now: int) -> bool {
        self.is_healthy(now) && self.token.len() > 0
    }
}

impl Clone for Account {
    fn clone(&self) -> (r: Self)
        ensures
            r@ == self@,
    {
        Account {
            email: self.email.clone(),
            password: self.password.clone(),
            token: self.token.clone(),
            cookies: self.cookies.clone(),
            username: self.username.clone(),
            valid: self.valid,
            activation_pending: self.activation_pending,
            status_code: self.status_code.clone(),
            last_error: self.last_error.clone(),
            inflight: self.inflight,
            rate_limited_until: self.rate_limited_until,
            last_used: self.last_used,
            last_request_started: self.last_request_started,
            last_request_finished: self.last_request_finished,
            rate_limit_strikes: self.rate_limit_strikes,
            consecutive_failures: self.consecutive_failures,
        }
    }
}

impl Account {
    /// A working account that has served nothing yet.
    pub fn new(email: String, password: String, token: String, cookies: String, username: String) -> (r:
        Self)
        ensures
            r@ == (AccountView {
                email: email@,
                password: password@,
                token: token@,
                cookies: cookies@,
                username: username@,
                valid: true,
                activation_pending: false,
                status_code: "valid"@,
                last_error: Seq::<char>::empty(),
                inflight: 0,
                rate_limited_until: 0,
                last_used: 0,
                last_request_started: 0,
                last_request_finished: 0,
                rate_limit_strikes: 0,
                consecutive_failures: 0,
            }),
    {
        Account {
            email,
            password,
            token,
            cookies,
            username,
            valid: true,
            activation_pending: false,
            status_code: String::from_str("valid"),
            last_error: String::new(),
            inflight: 0,
            rate_limited_until: 0,
            last_used: 0,
            last_request_started: 0,
            last_request_finished: 0,
            rate_limit_strikes: 0,
            consecutive_failures: 0,
        }
    }

    /// The first moment at which a new request may start.
    pub fn next_available_at(&self, min_ms: u64) -> (r: u128)
        ensures
            r == self@.next_available_at(min_ms as int),
    {
        let spaced: u128 = self.last_request_started.saturating_add(min_ms as u128 * 1000);
        if min_ms == 0 || self.rate_limited_until >= spaced {
            self.rate_limited_until
        } else {
            spaced
        }
    }

    /// Whether a request may start at `now`, load aside.
    pub fn is_available(&self, min_ms: u64, now: u64) -> (r: bool)
        ensures
            r == self@.is_available(min_ms as int, now as int),
    {
        self.valid && self.next_available_at(min_ms) <= now as u128
    }

    /// Whether the account works and no rate limit is in force at `now`.
    pub fn is_healthy(&self, now: u64) -> (r: bool)
        ensures
            r == self@.is_healthy(now as int),
    {
        self.valid && self.rate_limited_until <= now as u128
    }

    /// Whether the account is healthy at `now` and has a token.
    pub fn is_usable(&self, now: u64) -> (r: bool)
        ensures
            r == self@.is_usable(now as int),
    {
        self.is_healthy(now) && !self.token.as_str().is_empty()
    }
}

} // verus!
