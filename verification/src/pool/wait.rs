//! Waiting for an account.
//!
//! A request that finds no free account waits in a queue. Whoever drives it calls
//! `acquire_wait` with its phase, sleeps as told, and leaves the queue when it is over.

use vstd::prelude::*;
use vstd::string::*;

use super::account_pool::{AccountPool, AccountPoolView};
use super::handle::{AccountHandle, HandleView};
use crate::email_set::EmailSet;
use crate::text::opt_str_view;

verus! {

/// The longest sleep between two attempts, in microseconds.
pub const MAX_NAP: u64 = 500_000;

/// Where a waiting request stands.
#[derive(Clone, Copy, PartialEq, Eq, Structural, Debug)]
pub enum WaitPhase {
    /// It has not tried yet, and would wait for so many microseconds.
    Start { timeout: u64 },
    /// It is in the queue until the deadline.
    Queued { deadline: u128 },
}

/// What a waiting request does next.
pub enum WaitStep {
    /// It has an account.
    Acquired(AccountHandle),
    /// It may not wait.
    Refused,
    /// It has joined the queue, until the deadline.
    Joined { deadline: u128 },
    /// It sleeps for so many microseconds, or until an account is given back.
    Sleep { micros: u64 },
    /// It has waited long enough.
    TimedOut,
}

/// What a waiting request does next, as a mathematical value.
pub enum WaitStepView {
    Acquired(HandleView),
    Refused,
    Joined { deadline: int },
    Sleep { micros: int },
    TimedOut,
}

impl View for WaitStep {
    type V = WaitStepView;

    open spec fn view(&self) -> WaitStepView {
        match *self {
            WaitStep::Acquired(h) => WaitStepView::Acquired(h@),
            WaitStep::Refused => WaitStepView::Refused,
            WaitStep::Joined { deadline } => WaitStepView::Joined { deadline: deadline as int },
            WaitStep::Sleep { micros } => WaitStepView::Sleep { micros: micros as int },
            WaitStep::TimedOut => WaitStepView::TimedOut,
        }
    }
}

impl AccountPoolView {
    /// What a request does that has found no free account.
    pub open spec fn without_account(self, phase: WaitPhase, now: int) -> WaitStepView {
        match phase {
            WaitPhase::Start { timeout } => if self.state.max_queue_size <= 0 || self.waiting
                >= self.state.max_queue_size {
                WaitStepView::Refused
            } else {
                WaitStepView::Joined { deadline: now + timeout }
            },
            WaitPhase::Queued { deadline } => if deadline <= now {
                WaitStepView::TimedOut
            } else if deadline - now <= MAX_NAP {
                WaitStepView::Sleep { micros: deadline - now }
            } else {
                WaitStepView::Sleep { micros: MAX_NAP as int }
            },
        }
    }

    /// One step of a waiting request: it takes an account if one is free, else it goes on as
    /// its phase says. The queue is counted when it is joined.
    pub open spec fn wait_step(
        self,
        preferred: Option<Seq<char>>,
        exclude: Set<Seq<char>>,
        phase: WaitPhase,
        now: int,
        jitter_ms: int,
    ) -> (AccountPoolView, WaitStepView) {
        let (state, handle) = self.state.acquired(
            self.interval_gen,
            preferred,
            exclude,
            self.min_interval_ms,
            now,
            jitter_ms,
        );
        let pool = self.with_state(state);
        match handle {
            Some(h) => (pool, WaitStepView::Acquired(h)),
            None => {
                let step = pool.without_account(phase, now);
                if step is Joined {
                    (
                        AccountPoolView {
                            waiting: if pool.waiting == usize::MAX {
                                0
                            } else {
                                pool.waiting + 1
                            },
                            ..pool
                        },
                        step,
                    )
                } else {
                    (pool, step)
                }
            },
        }
    }
}

impl AccountPool {
    /// One step of a request that waits for an account.
    pub fn acquire_wait(
        &mut self,
        preferred: Option<&str>,
        exclude: &EmailSet,
        phase: WaitPhase,
        now: u64,
        jitter_ms: u64,
    ) -> (r: WaitStep)
        requires
            old(self).wf(),
            old(self).state.global_in_use < i64::MAX,
        ensures
            final(self).wf(),
            (final(self)@, r@) == old(self)@.wait_step(
                opt_str_view(preferred),
                exclude@,
                phase,
                now as int,
                jitter_ms as int,
            ),
    {
        if let Some(h) = self.acquire(preferred, exclude, now, jitter_ms) {
            return WaitStep::Acquired(h);
        }
        match phase {
            WaitPhase::Start { timeout } => {
                let max_q: i64 = self.state.max_queue_size;
                if max_q <= 0 || self.waiting as i128 >= max_q as i128 {
                    return WaitStep::Refused;
                }
                self.waiting = self.waiting.wrapping_add(1);
                WaitStep::Joined { deadline: now as u128 + timeout as u128 }
            },
            WaitPhase::Queued { deadline } => {
                if deadline <= now as u128 {
                    return WaitStep::TimedOut;
                }
                let remaining: u128 = deadline - now as u128;
                if remaining <= MAX_NAP as u128 {
                    WaitStep::Sleep { micros: remaining as u64 }
                } else {
                    WaitStep::Sleep { micros: MAX_NAP }
                }
            },
        }
    }

    /// A request leaves the queue, with an account or without.
    pub fn leave_queue(&mut self)
        requires
            old(self).wf(),
        ensures
            final(self).wf(),
            final(self)@ == (AccountPoolView {
                waiting: if old(self)@.waiting == 0 {
                    usize::MAX as int
                } else {
                    old(self)@.waiting - 1
                },
                ..old(self)@
            }),
    {
        self.waiting = self.waiting.wrapping_sub(1);
    }
}

} // verus!
