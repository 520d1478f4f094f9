//! How loads add up over a history of operations.

use vstd::prelude::*;

use super::account_pool::{with_added, without_email, AccountPoolView};
use super::history_laws::{distinct_emails, lemma_add, lemma_remove, lemma_remove_subset};
use super::laws::{
    lemma_every_operation_keeps_index, lemma_taken_was_free, lemma_taking_keeps,
    lemma_without_email_len, PoolOp,
};
use super::state::{lemma_position, PoolView};
use crate::account::AccountView;

verus! {

impl AccountPoolView {
    /// The pool after operations, each at its time.
    pub open spec fn after_all(self, ops: Seq<(PoolOp, int)>) -> AccountPoolView
        decreases ops.len(),
    {
        if ops.len() == 0 {
            self
        } else {
            self.after_all(ops.drop_last()).after(ops.last().0, ops.last().1)
        }
    }

    /// The operation takes an account.
    pub open spec fn takes(self, op: PoolOp, now: int) -> bool {
        op matches PoolOp::Acquire { preferred, exclude, jitter_ms } && self.taking(
            preferred,
            exclude,
            now,
            jitter_ms,
        ).1 is Some
    }

    /// How many accounts have been taken and not been given back.
    pub open spec fn outstanding(self, ops: Seq<(PoolOp, int)>) -> int
        decreases ops.len(),
    {
        if ops.len() == 0 {
            0
        } else {
            let before = self.outstanding(ops.drop_last());
            if self.after_all(ops.drop_last()).takes(ops.last().0, ops.last().1) {
                before + 1
            } else if ops.last().0 is Release {
                before - 1
            } else {
                before
            }
        }
    }

    /// Nothing is given back that was not taken.
    pub open spec fn owes_nothing(self, ops: Seq<(PoolOp, int)>) -> bool
        decreases ops.len(),
    {
        self.outstanding(ops) >= 0 && (ops.len() > 0 ==> self.owes_nothing(ops.drop_last()))
    }
}

/// The load of the pool is balanced: over any sequence of operations it is the number of
/// accounts that have been taken and not been given back.
pub proof fn lemma_load_is_balanced(p: AccountPoolView, ops: Seq<(PoolOp, int)>)
    requires
        p.state.global_in_use == 0,
        p.owes_nothing(ops),
    ensures
        p.after_all(ops).state.global_in_use == p.outstanding(ops),
    decreases ops.len(),
{
    if ops.len() > 0 {
        lemma_load_is_balanced(p, ops.drop_last());
    }
}

/// Every account with this address carries so many requests.
pub open spec fn load_is(accounts: Seq<AccountView>, email: Seq<char>, n: int) -> bool {
    forall|i: int|
        0 <= i < accounts.len() && (#[trigger] accounts[i]).email == email ==> accounts[i].inflight
            == n
}

/// The operations come one after the other, none before the start.
pub open spec fn in_order(start: int, ops: Seq<(PoolOp, int)>) -> bool {
    &&& forall|i: int| 0 <= i < ops.len() ==> start <= (#[trigger] ops[i]).1
    &&& forall|i: int, j: int|
        0 <= i <= j < ops.len() ==> (#[trigger] ops[i]).1 <= (#[trigger] ops[j]).1
}

impl AccountPoolView {
    /// What an operation adds to the load of the account with an address.
    pub open spec fn load_change(self, op: PoolOp, now: int, email: Seq<char>) -> int {
        match op {
            PoolOp::Acquire { preferred, exclude, jitter_ms } => match self.taking(
                preferred,
                exclude,
                now,
                jitter_ms,
            ).1 {
                Some(h) => if h.email == email {
                    1
                } else {
                    0
                },
                None => 0,
            },
            PoolOp::Release { email: e } => if e == email {
                -1
            } else {
                0
            },
            _ => 0,
        }
    }

    /// How often the account with an address has been taken and not been given back.
    pub open spec fn outstanding_of(self, ops: Seq<(PoolOp, int)>, email: Seq<char>) -> int
        decreases ops.len(),
    {
        if ops.len() == 0 {
            0
        } else {
            self.outstanding_of(ops.drop_last(), email) + self.after_all(
                ops.drop_last(),
            ).load_change(ops.last().0, ops.last().1, email)
        }
    }

    /// The account with an address is not given back more often than it was taken.
    pub open spec fn owes_nothing_of(self, ops: Seq<(PoolOp, int)>, email: Seq<char>) -> bool
        decreases ops.len(),
    {
        self.outstanding_of(ops, email) >= 0 && (ops.len() > 0 ==> self.owes_nothing_of(
            ops.drop_last(),
            email,
        ))
    }
}

/// Replacing the account of an address by one with the same address.
proof fn lemma_replaced(p: PoolView, i: int, b: AccountView, email: Seq<char>, n: int, m: int)
    requires
        p.distinct(),
        0 <= i < p.accounts.len(),
        b.email == p.accounts[i].email,
        load_is(p.accounts, email, n),
        b.email == email ==> b.inflight == m,
        b.email != email ==> m == n,
    ensures
        distinct_emails(p.accounts.update(i, b)),
        load_is(p.accounts.update(i, b), email, m),
{
    let list = p.accounts.update(i, b);
    assert forall|j: int, k: int| 0 <= j < list.len() && 0 <= k < list.len() && j != k implies (
    #[trigger] list[j]).email != (#[trigger] list[k]).email by {
        assert(p.accounts[j].email != p.accounts[k].email);
    }
    assert forall|j: int| 0 <= j < list.len() && (#[trigger] list[j]).email
        == email implies list[j].inflight == m by {
        if j != i {
            assert(p.accounts[j].email == email);
            assert(p.accounts[j].email != p.accounts[i].email);
        }
    }
}

/// One operation changes the load of an account by what it takes or gives back. Addresses stay
/// distinct.
proof fn lemma_load_after(
    p: AccountPoolView,
    op: PoolOp,
    now: int,
    email: Seq<char>,
    n: int,
)
    requires
        p.current(now),
        p.state.distinct(),
        load_is(p.state.accounts, email, n),
        n + p.load_change(op, now, email) >= 0,
        op matches PoolOp::Add { account } ==> account.email != email,
    ensures
        p.after(op, now).state.distinct(),
        p.after(op, now).state.accounts.len() <= p.state.accounts.len() + 1,
        load_is(p.after(op, now).state.accounts, email, n + p.load_change(op, now, email)),
{
    let s = p.state;
    let all = s.accounts;
    let m = n + p.load_change(op, now, email);
    let after = p.after(op, now).state.accounts;
    match op {
        PoolOp::Acquire { preferred, exclude, jitter_ms } => {
            let (q, h) = p.taking(preferred, exclude, now, jitter_ms);
            lemma_taking_keeps(p, preferred, exclude, now, jitter_ms);
            if h is Some {
                lemma_taken_was_free(p, preferred, exclude, now, jitter_ms);
                let i = choose|i: int| #[trigger] p.took(i, exclude, now, jitter_ms, q, h->0);
                lemma_replaced(s, i, all[i].taken(now, jitter_ms), email, n, m);
            }
        },
        PoolOp::Release { email: e } => {
            lemma_position(s, e);
            if let Some(i) = s.position(e) {
                lemma_replaced(s, i, all[i].released(now), email, n, m);
            }
        },
        PoolOp::MarkRateLimited { email: e, jitter_ms } => {
            lemma_position(s, e);
            if let Some(i) = s.position(e) {
                let b = all[i].rate_limited(p.base_cooldown, p.max_cooldown, jitter_ms, now);
                lemma_replaced(s, i, b, email, n, m);
            }
        },
        PoolOp::MarkInvalid { email: e, reason, err } => {
            lemma_position(s, e);
            if let Some(i) = s.position(e) {
                lemma_replaced(s, i, all[i].invalidated(reason, err, p.threshold()), email, n, m);
            }
        },
        PoolOp::MarkSuccess { email: e } => {
            lemma_position(s, e);
            if let Some(i) = s.position(e) {
                lemma_replaced(s, i, all[i].succeeded(), email, n, m);
            }
        },
        PoolOp::ApplyVerify { email: e, valid, status_code, error } => {
            lemma_position(s, e);
            if let Some(i) = s.position(e) {
                lemma_replaced(s, i, all[i].checked(valid, status_code, error), email, n, m);
            }
        },
        PoolOp::Add { account } => {
            lemma_add(all, account, email);
            assert(after == with_added(all, account));
            assert forall|j: int| 0 <= j < after.len() && (#[trigger] after[j]).email
                == email implies after[j].inflight == m by {
                assert(after[j] == all[j]);
            }
        },
        PoolOp::Remove { email: e } => {
            lemma_remove(all, e);
            lemma_remove_subset(all, e);
            lemma_without_email_len(all, e);
            assert(after == without_email(all, e));
            assert forall|j: int| 0 <= j < after.len() && (#[trigger] after[j]).email
                == email implies after[j].inflight == m by {
                let k = choose|k: int| 0 <= k < all.len() && after[j] == all[k];
                assert(all[k].email == email);
            }
        },
        _ => {},
    }
}

/// What an account carries is balanced: over any sequence of operations on a pool with distinct
/// addresses it is the number of times that the account was taken less the number of times that
/// it was given back. (An operation that puts another account in its place is left out.)
pub proof fn lemma_account_load_is_balanced(
    p: AccountPoolView,
    ops: Seq<(PoolOp, int)>,
    start: int,
    email: Seq<char>,
)
    requires
        p.current(start),
        p.state.distinct(),
        load_is(p.state.accounts, email, 0),
        in_order(start, ops),
        p.state.accounts.len() + ops.len() <= usize::MAX,
        forall|i: int|
            0 <= i < ops.len() ==> ((#[trigger] ops[i]).0 matches PoolOp::Add { account }
                ==> account.email != email),
        p.owes_nothing_of(ops, email),
    ensures
        load_is(p.after_all(ops).state.accounts, email, p.outstanding_of(ops, email)),
        p.after_all(ops).state.distinct(),
        p.after_all(ops).state.accounts.len() <= p.state.accounts.len() + ops.len(),
        p.after_all(ops).current(
            if ops.len() > 0 {
                ops.last().1
            } else {
                start
            },
        ),
    decreases ops.len(),
{
    if ops.len() > 0 {
        let before = ops.drop_last();
        let (op, now) = ops.last();
        let then = if before.len() > 0 {
            before.last().1
        } else {
            start
        };
        assert forall|i: int| 0 <= i < before.len() implies ((#[trigger] before[i]).0 matches
            PoolOp::Add { account } ==> account.email != email) by {
            assert(ops[i] == before[i]);
        }
        assert(in_order(start, before)) by {
            assert forall|i: int| 0 <= i < before.len() implies start <= (
            #[trigger] before[i]).1 by {
                assert(ops[i] == before[i]);
            }
            assert forall|i: int, j: int| 0 <= i <= j < before.len() implies (
            #[trigger] before[i]).1 <= (#[trigger] before[j]).1 by {
                assert(ops[i] == before[i] && ops[j] == before[j]);
            }
        }
        lemma_account_load_is_balanced(p, before, start, email);
        let q = p.after_all(before);
        assert(ops[ops.len() - 1] == ops.last());
        assert(then <= now) by {
            if before.len() > 0 {
                assert(ops[ops.len() - 2] == before.last());
            }
        }
        if q.state.built_gen == q.interval_gen {
            super::laws::lemma_agreement_lasts(q.state, q.min_interval_ms, then, now);
        }
        lemma_every_operation_keeps_index(q, op, then, now);
        lemma_load_after(q, op, now, email, p.outstanding_of(before, email));
    }
}

/// Giving an account back takes one from its load and from that of the pool, neither of which
/// falls below zero. Nothing else of the pool's list changes.
pub proof fn lemma_release(p: PoolView, email: Seq<char>, min_ms: int, now: int)
    requires
        p.wf(),
    ensures
        ({
            let after = p.released(email, min_ms, now);
            &&& after.global_in_use >= 0
            &&& p.global_in_use >= 1 ==> after.global_in_use == p.global_in_use - 1
            &&& after.accounts.len() == p.accounts.len()
            &&& forall|i: int|
                0 <= i < p.accounts.len() && p.position(email) != Some(i)
                    ==> #[trigger] after.accounts[i] == p.accounts[i]
            &&& p.position(email) matches Some(i) ==> after.accounts[i].inflight >= 0 && (
            p.accounts[i].inflight >= 1 ==> after.accounts[i].inflight == p.accounts[i].inflight
                - 1)
        }),
{
    lemma_position(p, email);
}

} // verus!
