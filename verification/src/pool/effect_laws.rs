//! What taking an account does, field by field, and whom it leaves for the next.

use vstd::prelude::*;
use vstd::string::*;
use vstd::utf8::*;

use super::account_pool::AccountPoolView;
use super::acquire::lemma_scan_choice_unique;
use super::handle::HandleView;
use super::index::{place_of, ready_entry};
use super::laws::{
    lemma_agreement_lasts, lemma_every_operation_keeps_index, lemma_preferred_comes_first,
    lemma_rebuilt, lemma_taken_was_free, lemma_takes_if_and_only_if_free, lemma_taking_keeps,
    PoolOp,
};
use super::order_laws::{lemma_least_loaded_first, lemma_scan_least_loaded_first};
use super::state::{lemma_position, PoolView};
use super::warm::lemma_warmed;
use crate::account::{Account, AccountView, TIME_MAX};
use crate::heap::{comes_first, entry_le, lemma_bytes_lt_dictionary};

verus! {

impl AccountPoolView {
    /// Account `i` can serve one more request: it works, no rate limit is in force, the least
    /// interval has passed since its last request started, it carries less than it may, and
    /// nobody has excluded it.
    pub open spec fn can_serve(self, i: int, exclude: Set<Seq<char>>, now: u64) -> bool {
        let a = self.state.accounts[i];
        &&& 0 <= i < self.state.accounts.len()
        &&& a.valid
        &&& a.rate_limited_until <= now
        &&& self.min_interval_ms > 0 ==> a.last_request_started + self.min_interval_ms * 1000
            <= now
        &&& a.inflight < self.state.max_inflight_per_account
        &&& !exclude.contains(a.email)
    }

    /// The pool may carry one more request.
    pub open spec fn has_room(self) -> bool {
        self.state.global_max_inflight <= 0 || self.state.global_in_use
            < self.state.global_max_inflight
    }
}

proof fn lemma_can_serve(p: AccountPoolView, i: int, exclude: Set<Seq<char>>, now: u64)
    ensures
        p.can_serve(i, exclude, now) <==> p.free(i, exclude, now as int),
        p.has_room() <==> !p.state.is_full(),
{
}

/// What taking an account does: the taker gets the address and the token of an account that can
/// serve. That account carries one request more, is used now, and its request starts after the
/// jitter. No other field of it changes, and no other account.
pub proof fn lemma_taking_effect(
    p: AccountPoolView,
    preferred: Option<Seq<char>>,
    exclude: Set<Seq<char>>,
    now: u64,
    jitter_ms: u64,
)
    requires
        p.current(now as int),
    ensures
        ({
            let (after, h) = p.taking(preferred, exclude, now as int, jitter_ms as int);
            h matches Some(h) ==> p.has_room() && after.global_in_use == p.state.global_in_use + 1
                && after.accounts.len() == p.state.accounts.len() && exists|i: int|
                {
                    let a = #[trigger] p.state.accounts[i];
                    let b = after.accounts[i];
                    &&& p.can_serve(i, exclude, now)
                    &&& h.email == a.email
                    &&& h.token == a.token
                    &&& b.inflight == a.inflight + 1
                    &&& b.last_used == now
                    &&& b.last_request_started == now + jitter_ms * 1000
                    &&& b == AccountView {
                        inflight: b.inflight,
                        last_used: b.last_used,
                        last_request_started: b.last_request_started,
                        ..a
                    }
                    &&& forall|j: int|
                        0 <= j < after.accounts.len() && j != i ==> #[trigger] after.accounts[j]
                            == p.state.accounts[j]
                }
        }),
{
    let (after, h) = p.taking(preferred, exclude, now as int, jitter_ms as int);
    lemma_taken_was_free(p, preferred, exclude, now as int, jitter_ms as int);
    if h is Some {
        let i = choose|i: int| #[trigger]
            p.took(i, exclude, now as int, jitter_ms as int, after, h->0);
        lemma_can_serve(p, i, exclude, now);
        let a = p.state.accounts[i];
        assert(after.accounts[i] == a.taken(now as int, jitter_ms as int));
    }
}

/// A request gets an account exactly when the pool has room and some account can serve.
pub proof fn lemma_served_if_and_only_if_possible(
    p: AccountPoolView,
    preferred: Option<Seq<char>>,
    exclude: Set<Seq<char>>,
    now: u64,
    jitter_ms: u64,
)
    requires
        p.current(now as int),
        p.state.use_index ==> p.state.distinct(),
    ensures
        p.taking(preferred, exclude, now as int, jitter_ms as int).1 is Some <==> p.has_room()
            && exists|i: int| #[trigger] p.can_serve(i, exclude, now),
{
    lemma_takes_if_and_only_if_free(p, preferred, exclude, now as int, jitter_ms as int);
    assert forall|i: int| #[trigger] p.can_serve(i, exclude, now) <==> p.free(
        i,
        exclude,
        now as int,
    ) by {
        lemma_can_serve(p, i, exclude, now);
    }
    lemma_can_serve(p, 0, exclude, now);
    if exists|i: int| p.free(i, exclude, now as int) {
        let i = choose|i: int| p.free(i, exclude, now as int);
        assert(p.can_serve(i, exclude, now));
    }
    if exists|i: int| #[trigger] p.can_serve(i, exclude, now) {
        let i = choose|i: int| #[trigger] p.can_serve(i, exclude, now);
        assert(p.free(i, exclude, now as int));
    }
}

/// A preferred account that can serve is the one that is handed out, with its own token.
pub proof fn lemma_preferred_is_served(
    p: AccountPoolView,
    i: int,
    exclude: Set<Seq<char>>,
    now: u64,
    jitter_ms: u64,
)
    requires
        p.current(now as int),
        p.state.distinct(),
        p.has_room(),
        p.can_serve(i, exclude, now),
    ensures
        ({
            let a = p.state.accounts[i];
            p.taking(Some(a.email), exclude, now as int, jitter_ms as int).1 == Some(
                HandleView { email: a.email, token: a.token },
            )
        }),
{
    lemma_can_serve(p, i, exclude, now);
    lemma_preferred_comes_first(p, i, exclude, now as int, jitter_ms as int);
}

/// The order in which accounts are taken: whoever is taken without a preference carries no more
/// than any account that can serve. Of those that carry as much, by way of the index none was
/// used longer ago, and of those used at the same time none has an earlier address; without it
/// none was started on longer ago, nor, started on at the same time, used longer ago, nor, used at
/// the same time, does any stand earlier in the list.
pub proof fn lemma_order_of_taking(
    p: AccountPoolView,
    i: int,
    exclude: Set<Seq<char>>,
    now: u64,
    jitter_ms: u64,
)
    requires
        p.current(now as int),
        p.state.distinct(),
        p.can_serve(i, exclude, now),
    ensures
        ({
            let (_, h) = p.taking(None, exclude, now as int, jitter_ms as int);
            h matches Some(h) ==> forall|k: int|
                0 <= k < p.state.accounts.len() && (#[trigger] p.state.accounts[k]).email
                    == h.email ==> {
                    let a = p.state.accounts[k];
                    let b = p.state.accounts[i];
                    &&& a.inflight <= b.inflight
                    &&& p.state.use_index && a.inflight == b.inflight ==> a.last_used
                        <= b.last_used
                    &&& !p.state.use_index && a.inflight == b.inflight
                        ==> a.last_request_started <= b.last_request_started
                    &&& !p.state.use_index && a.inflight == b.inflight
                        && a.last_request_started == b.last_request_started ==> a.last_used
                        <= b.last_used
                    &&& p.state.use_index && a.inflight == b.inflight && a.last_used == b.last_used
                        ==> !comes_first(encode_utf8(b.email), encode_utf8(a.email))
                    &&& !p.state.use_index && a.inflight == b.inflight && a.last_request_started
                        == b.last_request_started && a.last_used == b.last_used ==> k <= i
                }
        }),
{
    let s = p.state;
    let min_ms = p.min_interval_ms;
    let (_, h) = p.taking(None, exclude, now as int, jitter_ms as int);
    lemma_can_serve(p, i, exclude, now);
    if h is Some {
        let t: int;
        if s.use_index {
            let f = s.refreshed(p.interval_gen, min_ms, now as int);
            lemma_rebuilt(s, min_ms, now as int);
            lemma_least_loaded_first(f, i, exclude, min_ms, now as int, jitter_ms as int);
            t = choose|k: int|
                0 <= k < f.accounts.len() && h->0 == (#[trigger] f.accounts[k]).handle()
                    && f.lighter(k, i) && entry_le(
                    ready_entry(f.accounts[k]),
                    ready_entry(f.accounts[i]),
                );
            lemma_bytes_lt_dictionary(
                encode_utf8(s.accounts[i].email),
                encode_utf8(s.accounts[t].email),
            );
        } else {
            lemma_scan_least_loaded_first(s, i, exclude, min_ms, now as int, jitter_ms as int);
            t = choose|k: int|
                0 <= k < s.accounts.len() && h->0 == (#[trigger] s.accounts[k]).handle() && (k
                    == i || s.before(k, i));
        }
        assert forall|k: int|
            0 <= k < s.accounts.len() && (#[trigger] s.accounts[k]).email == h->0.email implies k
            == t by {
            assert(s.accounts[t].email == h->0.email);
        }
    }
}

proof fn lemma_current_lasts(p: AccountPoolView, then: int, now: int)
    requires
        p.current(then),
        then <= now,
    ensures
        p.current(now),
{
    if p.state.built_gen == p.interval_gen {
        lemma_agreement_lasts(p.state, p.min_interval_ms, then, now);
    }
}

/// Idle accounts take turns: of two that can serve, the one that is taken and given back is not
/// the one that the next request gets, since the other was used longer ago. This holds without a
/// least interval; without an index it holds where no start of the other lies ahead.
pub proof fn lemma_accounts_take_turns(
    p: AccountPoolView,
    i: int,
    j: int,
    first: (Option<Seq<char>>, Set<Seq<char>>),
    exclude: Set<Seq<char>>,
    times: (u64, u64, u64),
    jitters: (u64, u64),
)
    requires
        p.current(times.0 as int),
        p.state.distinct(),
        p.state.global_in_use >= 0,
        p.min_interval_ms == 0,
        i != j,
        0 <= i < p.state.accounts.len(),
        p.state.accounts[i].inflight == 0,
        p.can_serve(j, exclude, times.0),
        p.state.accounts[j].inflight == 0,
        p.state.accounts[j].last_used < times.0,
        p.state.use_index || p.state.accounts[j].last_request_started <= times.0,
        times.0 <= times.1 <= times.2,
        p.taking(first.0, first.1, times.0 as int, jitters.0 as int).1 matches Some(h) && h.email
            == p.state.accounts[i].email,
    ensures
        ({
            let (mid, _) = p.taking(first.0, first.1, times.0 as int, jitters.0 as int);
            let q = p.with_state(mid).after(
                PoolOp::Release { email: p.state.accounts[i].email },
                times.1 as int,
            );
            let (_, h) = q.taking(None, exclude, times.2 as int, jitters.1 as int);
            h is Some && h->0.email != p.state.accounts[i].email
        }),
{
    let (now, back, later) = times;
    let (mid, h0) = p.taking(first.0, first.1, now as int, jitters.0 as int);
    let e = p.state.accounts[i].email;
    lemma_taken_was_free(p, first.0, first.1, now as int, jitters.0 as int);
    lemma_taking_keeps(p, first.0, first.1, now as int, jitters.0 as int);
    let t = choose|t: int| #[trigger]
        p.took(t, first.1, now as int, jitters.0 as int, mid, h0->0);
    assert(p.state.accounts[t].email == e);
    assert(t == i);
    let m = p.with_state(mid);
    lemma_current_lasts(m, now as int, back as int);
    let op = PoolOp::Release { email: e };
    lemma_every_operation_keeps_index(m, op, now as int, back as int);
    let q = m.after(op, back as int);
    lemma_position(mid, e);
    assert(mid.accounts[i].email == e);
    let k = mid.position(e)->0;
    assert(mid.accounts[k].email == e);
    assert(k == i);
    assert(q.state.accounts =~= mid.accounts.update(i, mid.accounts[i].released(back as int)));
    assert(q.state.accounts[j] == p.state.accounts[j]);
    assert(q.state.distinct()) by {
        assert forall|x: int, y: int|
            0 <= x < q.state.accounts.len() && 0 <= y < q.state.accounts.len() && x != y implies (
        #[trigger] q.state.accounts[x]).email != (#[trigger] q.state.accounts[y]).email by {
            assert(mid.accounts[x].email != mid.accounts[y].email);
        }
    }
    lemma_current_lasts(q, back as int, later as int);
    assert(q.can_serve(j, exclude, later));
    assert(q.has_room());
    lemma_served_if_and_only_if_possible(q, None, exclude, later, jitters.1);
    lemma_order_of_taking(q, j, exclude, later, jitters.1);
    assert(q.state.accounts[i].inflight == 0);
    assert(q.state.accounts[i].last_used == now);
    assert(q.state.accounts[i].last_request_started >= now);
}

/// The pool sticks to an account that was taken without an alternative, where it has no index. In
/// any other case it sticks to what it did.
pub proof fn lemma_sticky(
    p: AccountPoolView,
    preferred: Option<Seq<char>>,
    exclude: Set<Seq<char>>,
    now: u64,
    jitter_ms: u64,
    i: int,
    j: int,
)
    requires
        p.current(now as int),
    ensures
        ({
            let (after, h) = p.taking(preferred, exclude, now as int, jitter_ms as int);
            &&& h is None || p.state.use_index ==> after.sticky_email == p.state.sticky_email
            &&& !p.state.use_index && h is Some && i != j && p.can_serve(i, exclude, now)
                && p.can_serve(j, exclude, now) ==> after.sticky_email == p.state.sticky_email
            &&& !p.state.use_index && h is Some && (forall|k: int| #[trigger]
                p.can_serve(k, exclude, now) ==> k == i) ==> after.sticky_email == Some(h->0.email)
        }),
{
    let s = p.state;
    let min_ms = p.min_interval_ms;
    let (after, h) = p.taking(preferred, exclude, now as int, jitter_ms as int);
    if !s.use_index && h is Some {
        let c = choose|c: int| s.is_scan_choice(c, preferred, exclude, min_ms, now as int);
        lemma_can_serve(p, c, exclude, now);
        lemma_can_serve(p, i, exclude, now);
        lemma_can_serve(p, j, exclude, now);
        if i != j && p.can_serve(i, exclude, now) && p.can_serve(j, exclude, now) {
            assert(s.candidate(i, exclude, min_ms, now as int));
            assert(s.candidate(j, exclude, min_ms, now as int));
        }
        if forall|k: int| #[trigger] p.can_serve(k, exclude, now) ==> k == i {
            assert forall|k: int| #[trigger] s.candidate(
                k,
                exclude,
                min_ms,
                now as int,
            ) implies k == c by {
                lemma_can_serve(p, k, exclude, now);
                assert(p.can_serve(k, exclude, now));
                assert(p.can_serve(c, exclude, now));
            }
        }
    }
}

/// An account is available once no rate limit is in force and, where there is a least interval, it
/// has passed since the last start.
pub proof fn lemma_available(a: AccountView, min_ms: u64, now: u64)
    ensures
        a.is_available(min_ms as int, now as int) <==> a.valid && a.rate_limited_until <= now && (
        min_ms > 0 ==> a.last_request_started + min_ms * 1000 <= now),
        a.is_healthy(now as int) <==> a.valid && a.rate_limited_until <= now,
        a.is_usable(now as int) <==> a.valid && a.rate_limited_until <= now && a.token.len() > 0,
{
}

/// A new account has what it was made of, works, and has served nothing.
pub proof fn lemma_new_account(
    email: String,
    password: String,
    token: String,
    cookies: String,
    username: String,
    r: Account,
)
    requires
        call_ensures(Account::new, (email, password, token, cookies, username), r),
    ensures
        r@.email == email@,
        r@.password == password@,
        r@.token == token@,
        r@.cookies == cookies@,
        r@.username == username@,
        r@.valid,
        !r@.activation_pending,
        r@.status_code == "valid"@,
        r@.last_error.len() == 0,
        r@.inflight == 0,
        r@.rate_limited_until == 0,
        r@.last_used == 0,
        r@.last_request_started == 0,
        r@.last_request_finished == 0,
        r@.rate_limit_strikes == 0,
        r@.consecutive_failures == 0,
{
}

/// An address that none of those has that may be taken is no reason for another choice.
proof fn lemma_same_choice(
    s: PoolView,
    email: Seq<char>,
    i: int,
    exclude: Set<Seq<char>>,
    min_ms: int,
    now: int,
)
    requires
        forall|j: int|
            s.candidate(j, exclude, min_ms, now) ==> (#[trigger] s.accounts[j]).email != email,
    ensures
        s.is_scan_choice(i, Some(email), exclude, min_ms, now) == s.is_scan_choice(
            i,
            None,
            exclude,
            min_ms,
            now,
        ),
{
    assert forall|j: int|
        #![trigger s.eligible(j, Some(email), exclude, min_ms, now)]
        #![trigger s.eligible(j, None, exclude, min_ms, now)]
        s.eligible(j, Some(email), exclude, min_ms, now) == s.eligible(
            j,
            None,
            exclude,
            min_ms,
            now,
        ) by {}
}

/// A preference that cannot be met counts for nothing: where no account with the preferred address
/// can serve, what happens is what happens without a preference.
pub proof fn lemma_unmet_preference(
    p: AccountPoolView,
    email: Seq<char>,
    exclude: Set<Seq<char>>,
    now: u64,
    jitter_ms: u64,
)
    requires
        p.current(now as int),
        p.state.use_index ==> p.state.distinct(),
        forall|i: int| #[trigger]
            p.can_serve(i, exclude, now) ==> p.state.accounts[i].email != email,
    ensures
        p.taking(Some(email), exclude, now as int, jitter_ms as int) == p.taking(
            None,
            exclude,
            now as int,
            jitter_ms as int,
        ),
{
    let s = p.state;
    let min_ms = p.min_interval_ms;
    let cap = s.max_inflight_per_account;
    let t = now as int;
    if s.use_index {
        let f = s.refreshed(p.interval_gen, min_ms, t);
        lemma_rebuilt(s, min_ms, t);
        let ix = f.idx->0;
        lemma_warmed(ix, f.accounts, cap, min_ms, t);
        let warm = ix.warmed(f.accounts, cap, min_ms, t);
        if warm.prefers(Some(email), exclude) {
            assert(warm.loc.contains_key(email));
            assert(warm.pos.contains_key(email));
            assert(warm.loc[email] == place_of(
                warm.account(f.accounts, email),
                cap,
                min_ms,
                t,
            ));
            let k = warm.pos[email] as int;
            lemma_can_serve(p, k, exclude, now);
            assert(p.can_serve(k, exclude, now));
        }
        assert(!warm.prefers(Some(email), exclude));
    } else {
        assert forall|j: int| s.candidate(j, exclude, min_ms, t) implies (
        #[trigger] s.accounts[j]).email != email by {
            lemma_can_serve(p, j, exclude, now);
            assert(p.can_serve(j, exclude, now));
        }
        assert forall|i: int|
            #![trigger s.is_scan_choice(i, Some(email), exclude, min_ms, t)]
            #![trigger s.is_scan_choice(i, None, exclude, min_ms, t)]
            s.is_scan_choice(i, Some(email), exclude, min_ms, t) == s.is_scan_choice(
                i,
                None,
                exclude,
                min_ms,
                t,
            ) by {
            lemma_same_choice(s, email, i, exclude, min_ms, t);
        }
        if exists|i: int| s.is_scan_choice(i, None, exclude, min_ms, t) {
            let a = choose|i: int| s.is_scan_choice(i, None, exclude, min_ms, t);
            assert(s.is_scan_choice(a, Some(email), exclude, min_ms, t));
            let b = choose|i: int| s.is_scan_choice(i, Some(email), exclude, min_ms, t);
            lemma_scan_choice_unique(s, a, b, None, exclude, min_ms, t);
        } else {
            assert(!(exists|i: int| s.is_scan_choice(i, Some(email), exclude, min_ms, t)));
        }
    }
}

/// The first moment at which an account may start again is the end of its rate limit or, where
/// there is a least interval, the end of that interval after its last start, whichever comes last.
pub proof fn lemma_next_available(a: AccountView, min_ms: u64)
    requires
        a.last_request_started >= 0,
    ensures
        ({
            let at = a.next_available_at(min_ms as int);
            let spaced = a.last_request_started + min_ms * 1000;
            &&& min_ms == 0 ==> at == a.rate_limited_until
            &&& min_ms > 0 && spaced <= TIME_MAX && spaced > a.rate_limited_until ==> at == spaced
            &&& min_ms > 0 && spaced <= a.rate_limited_until <= TIME_MAX ==> at
                == a.rate_limited_until
            &&& min_ms > 0 && spaced > TIME_MAX >= a.rate_limited_until ==> at == TIME_MAX
        }),
{
}

/// Whatever the outcome, taking an account leaves the settings and the limits alone.
pub proof fn lemma_taking_leaves(
    p: AccountPoolView,
    preferred: Option<Seq<char>>,
    exclude: Set<Seq<char>>,
    now: u64,
    jitter_ms: u64,
)
    requires
        p.current(now as int),
    ensures
        ({
            let (after, h) = p.taking(preferred, exclude, now as int, jitter_ms as int);
            &&& after.max_inflight_per_account == p.state.max_inflight_per_account
            &&& after.global_max_inflight == p.state.global_max_inflight
            &&& after.max_queue_size == p.state.max_queue_size
            &&& after.admin_global == p.state.admin_global
            &&& after.use_index == p.state.use_index
            &&& h is None ==> after.accounts == p.state.accounts
            &&& h is None ==> after.global_in_use == p.state.global_in_use
        }),
{
}

} // verus!
