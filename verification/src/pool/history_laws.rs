//! What a history of outcomes does to an account, and to the list of accounts.

use vstd::arithmetic::power2::{lemma2_to64, lemma_pow2_pos, lemma_pow2_unfold, pow2};
use vstd::prelude::*;

use super::account_pool::{with_added, without_email, AccountPoolView};
use super::laws::{lemma_rebuilt, lemma_without_email_len};
use super::outcome::{cooldown_secs, doublings};
use super::state::{is_first, lemma_position, PoolView};
use super::wait::{WaitPhase, WaitStepView, MAX_NAP};
use crate::account::AccountView;

verus! {

/// The account after so many authentication errors in a row.
pub open spec fn after_auth_errors(
    a: AccountView,
    errors: Seq<Seq<char>>,
    threshold: int,
) -> AccountView
    decreases errors.len(),
{
    if errors.len() == 0 {
        a
    } else {
        after_auth_errors(a, errors.drop_last(), threshold).invalidated(
            "auth_error"@,
            errors.last(),
            threshold,
        )
    }
}

/// A working account survives authentication errors in a row exactly as long as they stay
/// below the threshold.
pub proof fn lemma_threshold(a: AccountView, errors: Seq<Seq<char>>, threshold: int)
    requires
        a.valid,
        errors.len() > 0,
    ensures
        after_auth_errors(a, errors, threshold).valid <==> a.consecutive_failures + errors.len()
            < threshold,
        after_auth_errors(a, errors, threshold).consecutive_failures == a.consecutive_failures
            + errors.len(),
    decreases errors.len(),
{
    if errors.len() > 1 {
        lemma_threshold(a, errors.drop_last(), threshold);
    } else {
        assert(after_auth_errors(a, errors.drop_last(), threshold) == a);
    }
}

/// Only failures in a row count: after a success, or a check that found the account working,
/// it survives errors as if there had been none before.
pub proof fn lemma_success_forgives(
    a: AccountView,
    status_code: Seq<char>,
    errors: Seq<Seq<char>>,
    threshold: int,
)
    requires
        errors.len() > 0,
    ensures
        a.valid ==> (after_auth_errors(a.succeeded(), errors, threshold).valid <==> errors.len()
            < threshold),
        after_auth_errors(
            a.checked(true, status_code, Seq::empty()),
            errors,
            threshold,
        ).valid <==> errors.len() < threshold,
{
    if a.valid {
        lemma_threshold(a.succeeded(), errors, threshold);
    }
    lemma_threshold(a.checked(true, status_code, Seq::empty()), errors, threshold);
}

/// A failure for any other reason ends the account at once.
pub proof fn lemma_other_reasons_end_at_once(
    a: AccountView,
    reason: Seq<char>,
    err: Seq<char>,
    threshold: int,
)
    requires
        reason != "auth_error"@,
    ensures
        !a.invalidated(reason, err, threshold).valid,
        reason == "pending_activation"@ ==> a.invalidated(
            reason,
            err,
            threshold,
        ).activation_pending,
{
}

/// The first cooldown is the base. Each further one is twice the one before, until the
/// maximum is reached.
pub proof fn lemma_cooldown_doubles(base: int, max: int, strikes: int)
    requires
        0 <= base <= max,
        strikes >= 1,
    ensures
        cooldown_secs(base, max, 1) == base,
        cooldown_secs(base, max, strikes + 1) == if 2 * cooldown_secs(base, max, strikes) <= max {
            2 * cooldown_secs(base, max, strikes)
        } else {
            max
        },
        0 <= cooldown_secs(base, max, strikes) <= cooldown_secs(base, max, strikes + 1) <= max,
{
    lemma2_to64();
    assert(doublings(1) == 0);
    assert(base * 1 == base);
    let n = strikes as nat;
    lemma_pow2_unfold(n);
    lemma_pow2_pos((n - 1) as nat);
    let p = pow2((n - 1) as nat) as int;
    assert(base * (2 * p) == 2 * (base * p)) by (nonlinear_arith);
    assert(base * p >= 0) by (nonlinear_arith)
        requires
            base >= 0,
            p > 0,
    ;
}

/// After a success the next rate limit brings the first cooldown again.
pub proof fn lemma_success_resets_cooldown(
    a: AccountView,
    base: int,
    max: int,
    jitter_ms: int,
    now: int,
)
    requires
        0 <= base <= max,
    ensures
        a.succeeded().rate_limited(base, max, jitter_ms, now).rate_limited_until == now + (base
            + jitter_ms / 1000) * 1_000_000,
{
    lemma_cooldown_doubles(base, max, 1);
}

/// A success ends the rate limit that the account has met.
pub proof fn lemma_success_ends_rate_limit(
    a: AccountView,
    base: int,
    max: int,
    jitter_ms: int,
    now: int,
)
    ensures
        a.rate_limited(base, max, jitter_ms, now).succeeded().rate_limited_until == 0,
{
}

/// The list holds no address twice.
pub open spec fn distinct_emails(accounts: Seq<AccountView>) -> bool {
    forall|i: int, j: int|
        0 <= i < accounts.len() && 0 <= j < accounts.len() && i != j ==> (
        #[trigger] accounts[i]).email != (#[trigger] accounts[j]).email
}

/// The list holds the address.
pub open spec fn has_email(accounts: Seq<AccountView>, email: Seq<char>) -> bool {
    exists|i: int| 0 <= i < accounts.len() && (#[trigger] accounts[i]).email == email
}

proof fn lemma_first_of(accounts: Seq<AccountView>, email: Seq<char>, n: int)
    requires
        0 <= n < accounts.len(),
        accounts[n].email == email,
    ensures
        exists|i: int| is_first(accounts, email, i),
    decreases n,
{
    if exists|j: int| 0 <= j < n && (#[trigger] accounts[j]).email == email {
        let j = choose|j: int| 0 <= j < n && (#[trigger] accounts[j]).email == email;
        lemma_first_of(accounts, email, j);
    } else {
        assert(is_first(accounts, email, n));
    }
}

/// Adding an account keeps the addresses distinct; the account is then in the list, and no
/// other address has come or gone.
pub proof fn lemma_add(accounts: Seq<AccountView>, a: AccountView, email: Seq<char>)
    ensures
        distinct_emails(accounts) ==> distinct_emails(with_added(accounts, a)),
        exists|i: int|
            0 <= i < with_added(accounts, a).len() && #[trigger] with_added(accounts, a)[i] == a,
        has_email(with_added(accounts, a), email) <==> has_email(accounts, email) || email
            == a.email,
{
    let after = with_added(accounts, a);
    if exists|i: int| is_first(accounts, a.email, i) {
        let i = choose|i: int| is_first(accounts, a.email, i);
        assert(after[i] == a);
        assert forall|j: int| 0 <= j < after.len() implies (#[trigger] after[j]).email
            == accounts[j].email by {}
        if has_email(after, email) {
            let j = choose|j: int| 0 <= j < after.len() && (#[trigger] after[j]).email == email;
            assert(accounts[j].email == email);
        }
        if has_email(accounts, email) {
            let j = choose|j: int|
                0 <= j < accounts.len() && (#[trigger] accounts[j]).email == email;
            assert(after[j].email == email);
        }
        if distinct_emails(accounts) {
            assert forall|j: int, k: int|
                0 <= j < after.len() && 0 <= k < after.len() && j != k implies (
            #[trigger] after[j]).email != (#[trigger] after[k]).email by {
                assert(accounts[j].email != accounts[k].email);
            }
        }
    } else {
        assert(after[accounts.len() as int] == a);
        assert forall|j: int| 0 <= j < accounts.len() implies (#[trigger] accounts[j]).email
            != a.email by {
            if accounts[j].email == a.email {
                lemma_first_of(accounts, a.email, j);
            }
        }
        if has_email(accounts, email) {
            let j = choose|j: int|
                0 <= j < accounts.len() && (#[trigger] accounts[j]).email == email;
            assert(after[j].email == email);
        }
    }
}

/// Removing an address takes it out of the list, and nothing else; what stays keeps its
/// order, and distinct addresses stay distinct.
pub proof fn lemma_remove(accounts: Seq<AccountView>, email: Seq<char>)
    ensures
        !has_email(without_email(accounts, email), email),
        without_email(accounts, email) == accounts.filter(|a: AccountView| a.email != email),
        distinct_emails(accounts) ==> distinct_emails(without_email(accounts, email)),
        !has_email(accounts, email) ==> without_email(accounts, email) == accounts,
    decreases accounts.len(),
{
    reveal(Seq::filter);
    let keep = |a: AccountView| a.email != email;
    if accounts.len() == 0 {
        assert(accounts.filter(keep) =~= accounts);
    } else {
        let shorter = accounts.drop_last();
        let rest = without_email(shorter, email);
        let after = without_email(accounts, email);
        lemma_remove(shorter, email);
        lemma_remove_subset(shorter, email);
        if distinct_emails(accounts) {
            assert(distinct_emails(shorter)) by {
                assert forall|j: int, k: int|
                    0 <= j < shorter.len() && 0 <= k < shorter.len() && j != k implies (
                #[trigger] shorter[j]).email != (#[trigger] shorter[k]).email by {
                    assert(accounts[j].email != accounts[k].email);
                }
            }
            assert forall|j: int, k: int|
                0 <= j < after.len() && 0 <= k < after.len() && j != k implies (
            #[trigger] after[j]).email != (#[trigger] after[k]).email by {
                assert forall|m: int| 0 <= m < rest.len() implies (#[trigger] rest[m]).email
                    != accounts.last().email by {
                    let n = choose|n: int| 0 <= n < shorter.len() && rest[m] == shorter[n];
                    assert(accounts[n].email != accounts[accounts.len() - 1].email);
                }
            }
        }
        if has_email(after, email) {
            let j = choose|j: int| 0 <= j < after.len() && (#[trigger] after[j]).email == email;
            assert(j < rest.len());
            assert(rest[j].email == email);
        }
        if !has_email(accounts, email) {
            assert(!has_email(shorter, email)) by {
                if has_email(shorter, email) {
                    let j = choose|j: int|
                        0 <= j < shorter.len() && (#[trigger] shorter[j]).email == email;
                    assert(accounts[j].email == email);
                }
            }
            assert(accounts[accounts.len() - 1].email != email);
            assert(after =~= accounts);
        }
    }
}

/// What a removal leaves was there before.
pub proof fn lemma_remove_subset(accounts: Seq<AccountView>, email: Seq<char>)
    ensures
        forall|m: int|
            0 <= m < without_email(accounts, email).len() ==> exists|n: int|
                0 <= n < accounts.len() && #[trigger] without_email(accounts, email)[m]
                    == accounts[n],
    decreases accounts.len(),
{
    if accounts.len() > 0 {
        let shorter = accounts.drop_last();
        let rest = without_email(shorter, email);
        let after = without_email(accounts, email);
        lemma_remove_subset(shorter, email);
        assert forall|m: int| 0 <= m < after.len() implies exists|n: int|
            0 <= n < accounts.len() && #[trigger] after[m] == accounts[n] by {
            if m < rest.len() {
                assert(after[m] == rest[m]);
                let n = choose|n: int| 0 <= n < shorter.len() && rest[m] == shorter[n];
                assert(after[m] == accounts[n]);
            } else {
                assert(after[m] == accounts[accounts.len() - 1]);
            }
        }
    }
}

/// The last account with an address.
spec fn last_with(accounts: Seq<AccountView>, email: Seq<char>) -> Option<AccountView>
    decreases accounts.len(),
{
    if accounts.len() == 0 {
        None
    } else if accounts.last().email == email {
        Some(accounts.last())
    } else {
        last_with(accounts.drop_last(), email)
    }
}

/// The first account with an address.
spec fn first_with(accounts: Seq<AccountView>, email: Seq<char>) -> Option<AccountView>
    decreases accounts.len(),
{
    if accounts.len() == 0 {
        None
    } else if first_with(accounts.drop_last(), email) is Some {
        first_with(accounts.drop_last(), email)
    } else if accounts.last().email == email {
        Some(accounts.last())
    } else {
        None
    }
}

/// Removing an address leaves the first and the last account of every other one.
proof fn lemma_ends_stay(accounts: Seq<AccountView>, email: Seq<char>, other: Seq<char>)
    requires
        other != email,
    ensures
        last_with(without_email(accounts, email), other) == last_with(accounts, other),
        first_with(without_email(accounts, email), other) == first_with(accounts, other),
    decreases accounts.len(),
{
    if accounts.len() > 0 {
        let rest = without_email(accounts.drop_last(), email);
        lemma_ends_stay(accounts.drop_last(), email, other);
        assert(rest.push(accounts.last()).drop_last() =~= rest);
    }
}

proof fn lemma_last_with(accounts: Seq<AccountView>, email: Seq<char>, i: int)
    requires
        0 <= i < accounts.len(),
        accounts[i].email == email,
        forall|j: int| i < j < accounts.len() ==> (#[trigger] accounts[j]).email != email,
    ensures
        last_with(accounts, email) == Some(accounts[i]),
    decreases accounts.len(),
{
    if i < accounts.len() - 1 {
        let shorter = accounts.drop_last();
        assert(accounts[accounts.len() - 1].email != email);
        assert forall|j: int| i < j < shorter.len() implies (#[trigger] shorter[j]).email
            != email by {
            assert(accounts[j].email != email);
        }
        lemma_last_with(shorter, email, i);
    }
}

proof fn lemma_first_with(accounts: Seq<AccountView>, email: Seq<char>, i: int)
    requires
        is_first(accounts, email, i),
    ensures
        first_with(accounts, email) == Some(accounts[i]),
    decreases accounts.len(),
{
    let shorter = accounts.drop_last();
    if i < accounts.len() - 1 {
        assert(is_first(shorter, email, i)) by {
            assert forall|j: int| 0 <= j < i implies (#[trigger] shorter[j]).email != email by {
                assert(accounts[j].email != email);
            }
        }
        lemma_first_with(shorter, email, i);
    } else {
        assert forall|j: int| 0 <= j < shorter.len() implies (#[trigger] shorter[j]).email
            != email by {
            assert(accounts[j].email != email);
        }
        lemma_with_none(shorter, email);
    }
}

proof fn lemma_with_none(accounts: Seq<AccountView>, email: Seq<char>)
    requires
        forall|j: int| 0 <= j < accounts.len() ==> (#[trigger] accounts[j]).email != email,
    ensures
        first_with(accounts, email) is None,
        last_with(accounts, email) is None,
    decreases accounts.len(),
{
    if accounts.len() > 0 {
        let shorter = accounts.drop_last();
        assert(accounts[accounts.len() - 1].email != email);
        assert forall|j: int| 0 <= j < shorter.len() implies (#[trigger] shorter[j]).email
            != email by {
            assert(accounts[j].email != email);
        }
        lemma_with_none(shorter, email);
    }
}

/// The token of an address is that of the last account with it where there is an index, else
/// that of the first.
proof fn lemma_token(p: PoolView, email: Seq<char>)
    requires
        p.wf(),
    ensures
        p.token_of(email) == match (if p.use_index {
            last_with(p.accounts, email)
        } else {
            first_with(p.accounts, email)
        }) {
            Some(a) => Some(a.token),
            None => None,
        },
{
    lemma_position(p, email);
    match p.position(email) {
        Some(i) => {
            if p.use_index {
                assert forall|j: int| i < j < p.accounts.len() implies (
                #[trigger] p.accounts[j]).email != email by {}
                lemma_last_with(p.accounts, email, i);
            } else {
                lemma_first_with(p.accounts, email, i);
            }
        },
        None => {
            lemma_with_none(p.accounts, email);
        },
    }
}

/// A removal takes the accounts with the address out of the list and leaves the others as they
/// are, in their order. The token of the address is gone, and that of every other address is as
/// it was. To remove the address again changes nothing in the list.
pub proof fn lemma_remove_forgets_token(
    p: PoolView,
    email: Seq<char>,
    other: Seq<char>,
    min_ms: int,
    now: int,
)
    requires
        p.wf(),
        p.accounts.len() <= usize::MAX,
        other != email,
    ensures
        ({
            let after = p.relisted(without_email(p.accounts, email), min_ms, now);
            &&& after.accounts == p.accounts.filter(|a: AccountView| a.email != email)
            &&& after.token_of(email) is None
            &&& after.token_of(other) == p.token_of(other)
            &&& after.relisted(
                without_email(after.accounts, email),
                min_ms,
                now,
            ).accounts == after.accounts
        }),
{
    let left = without_email(p.accounts, email);
    let after = p.relisted(left, min_ms, now);
    lemma_without_email_len(p.accounts, email);
    lemma_remove(p.accounts, email);
    lemma_remove(left, email);
    lemma_rebuilt(PoolView { accounts: left, ..p }.relimited(now), min_ms, now);
    assert forall|j: int| 0 <= j < left.len() implies (#[trigger] left[j]).email != email by {}
    lemma_with_none(left, email);
    lemma_ends_stay(p.accounts, email, other);
    lemma_token(p, other);
    lemma_token(after, email);
    lemma_token(after, other);
}

/// Removing a new account again restores the list.
pub proof fn lemma_remove_undoes_add(accounts: Seq<AccountView>, a: AccountView)
    requires
        !has_email(accounts, a.email),
    ensures
        without_email(with_added(accounts, a), a.email) == accounts,
{
    assert forall|i: int| !is_first(accounts, a.email, i) by {
        if is_first(accounts, a.email, i) {
            assert(accounts[i].email == a.email);
        }
    }
    let after = accounts.push(a);
    assert(after.drop_last() =~= accounts);
    lemma_remove(accounts, a.email);
}

/// The queue never grows beyond its limit, and a request counts in it exactly when it joins.
pub proof fn lemma_queue(
    p: AccountPoolView,
    preferred: Option<Seq<char>>,
    exclude: Set<Seq<char>>,
    phase: WaitPhase,
    now: int,
    jitter_ms: int,
)
    requires
        0 <= p.waiting < usize::MAX,
        p.state.use_index ==> p.state.idx is Some,
    ensures
        ({
            let (q, step) = p.wait_step(preferred, exclude, phase, now, jitter_ms);
            &&& q.state.max_queue_size == p.state.max_queue_size
            &&& step is Joined <==> q.waiting == p.waiting + 1
            &&& !(step is Joined) <==> q.waiting == p.waiting
            &&& step is Joined ==> q.waiting <= p.state.max_queue_size
        }),
{
}

/// A request waits no longer than it said: it sleeps at most until its deadline, never long at
/// once, and from the deadline on it gets an account or gives up.
pub proof fn lemma_wait_is_bounded(
    p: AccountPoolView,
    preferred: Option<Seq<char>>,
    exclude: Set<Seq<char>>,
    timeout: u64,
    deadline: u128,
    now: int,
    jitter_ms: int,
)
    ensures
        ({
            let (_, first) = p.wait_step(
                preferred,
                exclude,
                WaitPhase::Start { timeout },
                now,
                jitter_ms,
            );
            first matches WaitStepView::Joined { deadline: d } ==> d == now + timeout
        }),
        ({
            let (_, step) = p.wait_step(
                preferred,
                exclude,
                WaitPhase::Queued { deadline },
                now,
                jitter_ms,
            );
            &&& step matches WaitStepView::Sleep { micros } ==> 0 < micros <= MAX_NAP && now
                + micros <= deadline
            &&& now >= deadline ==> step is Acquired || step is TimedOut
            &&& now < deadline ==> step is Acquired || step is Sleep
        }),
{
}

} // verus!
