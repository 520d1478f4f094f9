//! What holds of the pool over several operations.

use vstd::multiset::*;
use vstd::prelude::*;

use super::account_pool::{with_added, without_email, AccountPoolView};
use super::acquire::{lemma_acquired_indexed, lemma_choice};
use super::handle::HandleView;
use super::index::{place_of, ready_entry, IndexView, Loc};
use super::outcome::lemma_updated;
use super::state::{lemma_built_fits, lemma_position, PoolView};
use super::warm::lemma_warmed;
use crate::account::{later_by, AccountView};
use crate::heap::{entry_le, lemma_entry_total, EntryView};

verus! {

/// Agreement lasts: places that agree with the accounts still do so later.
pub proof fn lemma_agreement_lasts(p: PoolView, min_ms: int, then: int, now: int)
    requires
        p.agrees(min_ms, then),
        then <= now,
    ensures
        p.agrees(min_ms, now),
{
    if let Some(ix) = p.idx {
        assert forall|e: Seq<char>| #[trigger] ix.pos.contains_key(e) implies ix.agrees_at(
            p.accounts,
            p.max_inflight_per_account,
            min_ms,
            now,
            e,
        ) by {
            assert(ix.agrees_at(p.accounts, p.max_inflight_per_account, min_ms, then, e));
        }
    }
}

/// Where the places agree with the accounts, each account stands where it belongs, but for
/// one that has only just become available and has not been moved yet.
pub proof fn lemma_places(p: PoolView, min_ms: int, now: int, e: Seq<char>)
    requires
        p.wf(),
        p.agrees(min_ms, now),
        p.idx is Some,
        p.idx->0.pos.contains_key(e),
    ensures
        ({
            let ix = p.idx->0;
            let here = place_of(
                ix.account(p.accounts, e),
                p.max_inflight_per_account,
                min_ms,
                now,
            );
            ix.loc[e] == here || (ix.loc[e] == Loc::Cooldown && here == Loc::Ready)
        }),
{
    let ix = p.idx->0;
    assert(ix.loc.contains_key(e));
    assert(ix.agrees_at(p.accounts, p.max_inflight_per_account, min_ms, now, e));
}

impl AccountPoolView {
    /// The state is well formed, and an index of the present generation agrees with the
    /// accounts.
    pub open spec fn current(self, now: int) -> bool {
        &&& self.state.wf()
        &&& self.state.loads_agree()
        &&& self.state.accounts.len() <= usize::MAX
        &&& self.state.built_gen <= self.interval_gen
        &&& self.state.built_gen == self.interval_gen ==> self.state.agrees(
            self.min_interval_ms,
            now,
        )
    }
}

/// An operation on the pool.
pub enum PoolOp {
    Acquire { preferred: Option<Seq<char>>, exclude: Set<Seq<char>>, jitter_ms: int },
    Release { email: Seq<char> },
    MarkRateLimited { email: Seq<char>, jitter_ms: int },
    MarkInvalid { email: Seq<char>, reason: Seq<char>, err: Seq<char> },
    MarkSuccess { email: Seq<char> },
    ApplyVerify { email: Seq<char>, valid: bool, status_code: Seq<char>, error: Seq<char> },
    Add { account: AccountView },
    Remove { email: Seq<char> },
    SetMaxInflight { v: int },
    SetGlobalMaxInflight { v: int },
    SetMinInterval { ms: int },
}

impl AccountPoolView {
    /// The pool after an operation.
    pub open spec fn after(self, op: PoolOp, now: int) -> AccountPoolView {
        let min_ms = self.min_interval_ms;
        match op {
            PoolOp::Acquire { preferred, exclude, jitter_ms } => self.with_state(
                self.state.acquired(
                    self.interval_gen,
                    preferred,
                    exclude,
                    min_ms,
                    now,
                    jitter_ms,
                ).0,
            ),
            PoolOp::Release { email } => self.with_state(self.state.released(email, min_ms, now)),
            PoolOp::MarkRateLimited { email, jitter_ms } => self.with_state(
                self.state.rate_limited(
                    email,
                    self.base_cooldown,
                    self.max_cooldown,
                    jitter_ms,
                    min_ms,
                    now,
                ),
            ),
            PoolOp::MarkInvalid { email, reason, err } => self.with_state(
                self.state.invalidated(email, reason, err, self.threshold(), min_ms, now),
            ),
            PoolOp::MarkSuccess { email } => self.with_state(
                self.state.succeeded(email, min_ms, now),
            ),
            PoolOp::ApplyVerify { email, valid, status_code, error } => self.with_state(
                self.state.checked(email, valid, status_code, error, min_ms, now),
            ),
            PoolOp::Add { account } => self.with_state(
                self.state.relisted(with_added(self.state.accounts, account), min_ms, now),
            ),
            PoolOp::Remove { email } => self.with_state(
                self.state.relisted(without_email(self.state.accounts, email), min_ms, now),
            ),
            PoolOp::SetMaxInflight { v } => self.with_state(
                self.state.recapped(v, min_ms, now),
            ),
            PoolOp::SetGlobalMaxInflight { v } => self.with_state(
                self.state.with_admin_limit(v, now),
            ),
            PoolOp::SetMinInterval { ms } => AccountPoolView {
                min_interval_ms: ms,
                interval_gen: self.interval_gen + 1,
                ..self
            },
        }
    }
}

/// Removing an address does not make the list longer.
pub proof fn lemma_without_email_len(accounts: Seq<AccountView>, email: Seq<char>)
    ensures
        without_email(accounts, email).len() <= accounts.len(),
    decreases accounts.len(),
{
    if accounts.len() > 0 {
        lemma_without_email_len(accounts.drop_last(), email);
    }
}

/// Two states with the same accounts, limit and index agree with the accounts alike.
proof fn lemma_same_index(p: PoolView, q: PoolView, min_ms: int, now: int)
    requires
        q.accounts == p.accounts,
        q.max_inflight_per_account == p.max_inflight_per_account,
        q.use_index == p.use_index,
        q.idx == p.idx,
    ensures
        q.wf() == p.wf(),
        q.loads_agree() == p.loads_agree(),
        q.agrees(min_ms, now) == p.agrees(min_ms, now),
{
}

/// An index built anew is well formed and agrees with the accounts.
pub proof fn lemma_rebuilt(p: PoolView, min_ms: int, now: int)
    requires
        p.use_index == (p.idx is Some),
        p.accounts.len() <= usize::MAX,
    ensures
        p.rebuilt(min_ms, now).wf(),
        p.rebuilt(min_ms, now).loads_agree(),
        p.rebuilt(min_ms, now).agrees(min_ms, now),
{
    lemma_built_fits(p.accounts, p.max_inflight_per_account, min_ms, now);
}

/// Every operation keeps the index about its accounts and in agreement with them. (A pool is
/// left out that has as many accounts or changes of the interval as fit a machine word.)
pub proof fn lemma_every_operation_keeps_index(
    p: AccountPoolView,
    op: PoolOp,
    then: int,
    now: int,
)
    requires
        p.current(then),
        then <= now,
        op is Add ==> p.state.accounts.len() < usize::MAX,
    ensures
        p.after(op, now).current(now),
{
    let s = p.state;
    let min_ms = p.min_interval_ms;
    if s.built_gen == p.interval_gen {
        lemma_agreement_lasts(s, min_ms, then, now);
    }
    match op {
        PoolOp::Acquire { preferred, exclude, jitter_ms } => {
            if s.use_index {
                let f = s.refreshed(p.interval_gen, min_ms, now);
                lemma_rebuilt(s, min_ms, now);
                lemma_acquired_indexed(f, preferred, exclude, min_ms, now, jitter_ms);
            }
        },
        PoolOp::Release { email } => {
            if s.position(email) is Some {
                let i = s.position(email)->0;
                lemma_position(s, email);
                lemma_updated(s, email, s.accounts[i].released(now), min_ms, now);
                let q = s.with_account(i, s.accounts[i].released(now)).reindexed(
                    email,
                    min_ms,
                    now,
                );
                lemma_same_index(q, p.after(op, now).state, min_ms, now);
            } else {
                lemma_same_index(s, p.after(op, now).state, min_ms, now);
            }
        },
        PoolOp::MarkRateLimited { email, jitter_ms } => {
            let u = s.unstuck(email);
            lemma_same_index(s, u, min_ms, now);
            if s.position(email) is Some {
                let i = s.position(email)->0;
                lemma_position(s, email);
                let b = s.accounts[i].rate_limited(p.base_cooldown, p.max_cooldown, jitter_ms, now);
                lemma_updated(u, email, b, min_ms, now);
            }
        },
        PoolOp::MarkInvalid { email, reason, err } => {
            let u = s.unstuck(email);
            lemma_same_index(s, u, min_ms, now);
            if s.position(email) is Some {
                let i = s.position(email)->0;
                lemma_position(s, email);
                let b = s.accounts[i].invalidated(reason, err, p.threshold());
                lemma_updated(u, email, b, min_ms, now);
            }
        },
        PoolOp::MarkSuccess { email } => {
            if s.position(email) is Some {
                let i = s.position(email)->0;
                lemma_position(s, email);
                lemma_updated(s, email, s.accounts[i].succeeded(), min_ms, now);
            }
        },
        PoolOp::ApplyVerify { email, valid, status_code, error } => {
            if s.position(email) is Some {
                let i = s.position(email)->0;
                lemma_position(s, email);
                let b = s.accounts[i].checked(valid, status_code, error);
                lemma_updated(s, email, b, min_ms, now);
            }
        },
        PoolOp::Add { account } => {
            let list = with_added(s.accounts, account);
            assert(list.len() <= usize::MAX);
            lemma_rebuilt(
                PoolView { accounts: list, ..s }.relimited(now),
                min_ms,
                now,
            );
        },
        PoolOp::Remove { email } => {
            lemma_without_email_len(s.accounts, email);
            lemma_rebuilt(
                PoolView { accounts: without_email(s.accounts, email), ..s }.relimited(now),
                min_ms,
                now,
            );
        },
        PoolOp::SetMaxInflight { v } => {
            lemma_rebuilt(
                PoolView {
                    max_inflight_per_account: if v >= 1 {
                        v
                    } else {
                        1
                    },
                    ..s
                }.relimited(now),
                min_ms,
                now,
            );
        },
        PoolOp::SetGlobalMaxInflight { v } => {
            lemma_same_index(s, p.after(op, now).state, min_ms, now);
        },
        PoolOp::SetMinInterval { ms } => {},
    }
}

/// A pool that has just been loaded has an index in agreement with its accounts.
pub proof fn lemma_loaded_current(
    settings: super::account_pool::PoolSettings,
    accounts: Seq<AccountView>,
    now: int,
)
    requires
        accounts.len() <= usize::MAX,
    ensures
        AccountPoolView::loaded(settings, accounts, now).current(now),
{
    let s = AccountPoolView::loaded(settings, accounts, now).state;
    let min_ms = settings.account_min_interval_ms as int;
    let bare = PoolView {
        accounts,
        max_inflight_per_account: settings.max_inflight_per_account as int,
        global_max_inflight: 0,
        max_queue_size: 0,
        global_in_use: 0,
        admin_global: None,
        sticky_email: None,
        use_index: settings.pool_ready_index,
        idx: if settings.pool_ready_index {
            Some(IndexView::empty())
        } else {
            None
        },
        built_gen: 0,
    };
    lemma_rebuilt(bare.relimited(now), min_ms, now);
    assert(s == bare.relimited(now).rebuilt(min_ms, now));
}

impl AccountPoolView {
    /// What taking an account gives: the state after it and what the taker gets.
    pub open spec fn taking(
        self,
        preferred: Option<Seq<char>>,
        exclude: Set<Seq<char>>,
        now: int,
        jitter_ms: int,
    ) -> (PoolView, Option<HandleView>) {
        self.state.acquired(
            self.interval_gen,
            preferred,
            exclude,
            self.min_interval_ms,
            now,
            jitter_ms,
        )
    }

    /// Account `i` may be taken.
    pub open spec fn free(self, i: int, exclude: Set<Seq<char>>, now: int) -> bool {
        self.state.candidate(i, exclude, self.min_interval_ms, now)
    }

    /// Account `i` was taken: it was free, and it alone has changed.
    pub open spec fn took(
        self,
        i: int,
        exclude: Set<Seq<char>>,
        now: int,
        jitter_ms: int,
        after: PoolView,
        h: HandleView,
    ) -> bool {
        &&& self.free(i, exclude, now)
        &&& h == self.state.accounts[i].handle()
        &&& after.accounts == self.state.accounts.update(
            i,
            self.state.accounts[i].taken(now, jitter_ms),
        )
        &&& after.global_in_use == self.state.global_in_use + 1
    }
}

/// An account that is handed out works, is not rate limited, has waited the least interval,
/// carries less than it may and is not excluded. With it nothing changes but its own load and
/// the load of the pool, which had room.
pub proof fn lemma_taken_was_free(
    p: AccountPoolView,
    preferred: Option<Seq<char>>,
    exclude: Set<Seq<char>>,
    now: int,
    jitter_ms: int,
)
    requires
        p.current(now),
    ensures
        ({
            let (after, h) = p.taking(preferred, exclude, now, jitter_ms);
            h matches Some(h) ==> !p.state.is_full() && exists|i: int| #[trigger]
                p.took(i, exclude, now, jitter_ms, after, h)
        }),
{
    let s = p.state;
    let min_ms = p.min_interval_ms;
    let cap = s.max_inflight_per_account;
    let (after, h) = p.taking(preferred, exclude, now, jitter_ms);
    if h is Some {
        if s.use_index {
            let f = s.refreshed(p.interval_gen, min_ms, now);
            lemma_rebuilt(s, min_ms, now);
            let ix = f.idx->0;
            lemma_warmed(ix, f.accounts, cap, min_ms, now);
            let warm = ix.warmed(f.accounts, cap, min_ms, now);
            lemma_choice(warm, f.accounts, preferred, exclude);
            let e = warm.choice(f.accounts, preferred, exclude)->0;
            let i = warm.pos[e] as int;
            assert(warm.loc[e] == place_of(warm.account(f.accounts, e), cap, min_ms, now));
            assert(p.took(i, exclude, now, jitter_ms, after, h->0));
        } else {
            let i = choose|i: int| s.is_scan_choice(i, preferred, exclude, min_ms, now);
            assert(p.took(i, exclude, now, jitter_ms, after, h->0));
        }
    }
}

/// A list of entries that is not empty has a first one among those that a rule picks.
proof fn lemma_least_entry(m: Multiset<EntryView>, ok: spec_fn(EntryView) -> bool, x: EntryView)
    requires
        m.contains(x),
        ok(x),
    ensures
        exists|b: EntryView|
            m.contains(b) && ok(b) && forall|y: EntryView|
                #![trigger m.contains(y)]
                m.contains(y) && ok(y) ==> entry_le(b, y),
    decreases m.len(),
{
    broadcast use vstd::multiset::group_multiset_axioms;

    let rest = m.remove(x);
    lemma_entry_total(x, x);
    if exists|z: EntryView| rest.contains(z) && ok(z) {
        let z = choose|z: EntryView| rest.contains(z) && ok(z);
        lemma_least_entry(rest, ok, z);
        let b = choose|b: EntryView|
            rest.contains(b) && ok(b) && forall|y: EntryView|
                #![trigger rest.contains(y)]
                rest.contains(y) && ok(y) ==> entry_le(b, y);
        let c = if entry_le(b, x) {
            b
        } else {
            x
        };
        lemma_entry_total(b, x);
        assert(m.contains(b));
        assert forall|y: EntryView|
            #![trigger m.contains(y)]
            m.contains(y) && ok(y) implies entry_le(c, y) by {
            if y != x {
                assert(rest.contains(y));
                if c == x {
                    crate::heap::lemma_entry_le_transitive(x, b, y);
                }
            }
        }
        assert(m.contains(c) && ok(c));
    } else {
        assert forall|y: EntryView|
            #![trigger m.contains(y)]
            m.contains(y) && ok(y) implies entry_le(x, y) by {
            if y != x {
                assert(rest.contains(y));
            }
        }
    }
}

/// An index with an entry that may be taken has a first one.
proof fn lemma_best_exists(
    ix: IndexView,
    accounts: Seq<AccountView>,
    exclude: Set<Seq<char>>,
    x: EntryView,
)
    requires
        ix.selectable(accounts, x, exclude),
    ensures
        exists|b: EntryView| ix.is_best(accounts, b, exclude),
{
    let ok = |y: EntryView| !ix.stale(accounts, y) && !exclude.contains(y.email);
    lemma_least_entry(ix.ready, ok, x);
    let b = choose|b: EntryView|
        ix.ready.contains(b) && ok(b) && forall|y: EntryView|
            #![trigger ix.ready.contains(y)]
            ix.ready.contains(y) && ok(y) ==> entry_le(b, y);
    assert(ix.is_best(accounts, b, exclude)) by {
        assert forall|y: EntryView| #[trigger] ix.selectable(
            accounts,
            y,
            exclude,
        ) implies entry_le(b, y) by {
            assert(ix.ready.contains(y) && ok(y));
        }
    }
}

/// Of the accounts that meet a condition one goes before all others.
proof fn lemma_first_eligible(
    p: PoolView,
    preferred: Option<Seq<char>>,
    exclude: Set<Seq<char>>,
    min_ms: int,
    now: int,
    n: int,
)
    requires
        0 <= n <= p.accounts.len(),
        exists|i: int| 0 <= i < n && p.eligible(i, preferred, exclude, min_ms, now),
    ensures
        exists|i: int|
            0 <= i < n && p.eligible(i, preferred, exclude, min_ms, now) && forall|j: int|
                0 <= j < n && #[trigger] p.eligible(j, preferred, exclude, min_ms, now) ==> j == i
                    || p.before(i, j),
    decreases n,
{
    let last = n - 1;
    if exists|i: int| 0 <= i < last && p.eligible(i, preferred, exclude, min_ms, now) {
        lemma_first_eligible(p, preferred, exclude, min_ms, now, last);
        let i = choose|i: int|
            0 <= i < last && p.eligible(i, preferred, exclude, min_ms, now) && forall|j: int|
                0 <= j < last && #[trigger] p.eligible(j, preferred, exclude, min_ms, now) ==> j
                    == i || p.before(i, j);
        let c = if p.eligible(last, preferred, exclude, min_ms, now) && p.before(last, i) {
            last
        } else {
            i
        };
        assert(p.eligible(c, preferred, exclude, min_ms, now));
        assert forall|j: int|
            0 <= j < n && #[trigger] p.eligible(j, preferred, exclude, min_ms, now) implies j == c
            || p.before(c, j) by {}
    } else {
        let i = choose|i: int| 0 <= i < n && p.eligible(i, preferred, exclude, min_ms, now);
        assert(i == last);
    }
}

/// A request gets an account exactly when the pool has room and some account is free. This
/// holds with the index, where no two accounts have one address, and without it.
pub proof fn lemma_takes_if_and_only_if_free(
    p: AccountPoolView,
    preferred: Option<Seq<char>>,
    exclude: Set<Seq<char>>,
    now: int,
    jitter_ms: int,
)
    requires
        p.current(now),
        p.state.use_index ==> p.state.distinct(),
    ensures
        p.taking(preferred, exclude, now, jitter_ms).1 is Some <==> !p.state.is_full() && exists|
            i: int,
        |
            p.free(i, exclude, now),
{
    let s = p.state;
    let min_ms = p.min_interval_ms;
    let cap = s.max_inflight_per_account;
    if p.taking(preferred, exclude, now, jitter_ms).1 is Some {
        lemma_taken_was_free(p, preferred, exclude, now, jitter_ms);
        let (after, h) = p.taking(preferred, exclude, now, jitter_ms);
        let i = choose|i: int| #[trigger] p.took(i, exclude, now, jitter_ms, after, h->0);
        assert(p.free(i, exclude, now));
    }
    if !s.is_full() && exists|i: int| p.free(i, exclude, now) {
        let i = choose|i: int| p.free(i, exclude, now);
        if s.use_index {
            let f = s.refreshed(p.interval_gen, min_ms, now);
            lemma_rebuilt(s, min_ms, now);
            let ix = f.idx->0;
            lemma_warmed(ix, f.accounts, cap, min_ms, now);
            let warm = ix.warmed(f.accounts, cap, min_ms, now);
            let e = s.accounts[i].email;
            assert(f.accounts[i].email == e);
            assert(warm.pos.contains_key(e));
            let k = warm.pos[e] as int;
            assert(f.accounts[k].email == e);
            assert(k == i);
            assert(warm.loc[e] == place_of(warm.account(f.accounts, e), cap, min_ms, now));
            assert(warm.loc.contains_key(e));
            assert(warm.agrees_at(f.accounts, cap, min_ms, now, e));
            let x = ready_entry(f.accounts[i]);
            assert(warm.selectable(f.accounts, x, exclude));
            lemma_best_exists(warm, f.accounts, exclude, x);
        } else {
            if exists|j: int|
                s.eligible(j, preferred, exclude, min_ms, now) {
                let j = choose|j: int| s.eligible(j, preferred, exclude, min_ms, now);
                assert(0 <= j < s.accounts.len());
            } else {
                assert(s.candidate(i, exclude, min_ms, now));
                assert(!s.eligible(i, preferred, exclude, min_ms, now));
                let j = choose|j: int|
                    s.candidate(j, exclude, min_ms, now) && #[trigger] s.accounts[j].email
                        == preferred->0;
                assert(s.eligible(j, preferred, exclude, min_ms, now));
            }
            lemma_first_eligible(s, preferred, exclude, min_ms, now, s.accounts.len() as int);
            let c = choose|c: int|
                0 <= c < s.accounts.len() && s.eligible(c, preferred, exclude, min_ms, now)
                    && forall|j: int|
                    0 <= j < s.accounts.len() && #[trigger] s.eligible(
                        j,
                        preferred,
                        exclude,
                        min_ms,
                        now,
                    ) ==> j == c || s.before(c, j);
            assert(s.is_scan_choice(c, preferred, exclude, min_ms, now));
        }
    }
}

/// Taking an account leaves the addresses, the settings and the limits as they were.
pub proof fn lemma_taking_keeps(
    p: AccountPoolView,
    preferred: Option<Seq<char>>,
    exclude: Set<Seq<char>>,
    now: int,
    jitter_ms: int,
)
    requires
        p.current(now),
    ensures
        ({
            let (after, h) = p.taking(preferred, exclude, now, jitter_ms);
            &&& p.with_state(after).current(now)
            &&& p.state.distinct() ==> after.distinct()
            &&& after.accounts.len() == p.state.accounts.len()
            &&& forall|j: int|
                0 <= j < after.accounts.len() ==> (#[trigger] after.accounts[j]).email
                    == p.state.accounts[j].email
            &&& after.max_inflight_per_account == p.state.max_inflight_per_account
            &&& after.global_max_inflight == p.state.global_max_inflight
            &&& after.max_queue_size == p.state.max_queue_size
            &&& after.use_index == p.state.use_index
            &&& h is None ==> after.accounts == p.state.accounts && after.global_in_use
                == p.state.global_in_use
        }),
{
    let (after, h) = p.taking(preferred, exclude, now, jitter_ms);
    lemma_every_operation_keeps_index(
        p,
        PoolOp::Acquire { preferred, exclude, jitter_ms },
        now,
        now,
    );
    if h is Some {
        lemma_taken_was_free(p, preferred, exclude, now, jitter_ms);
        let i = choose|i: int| #[trigger] p.took(i, exclude, now, jitter_ms, after, h->0);
        assert forall|j: int| 0 <= j < after.accounts.len() implies (#[trigger] after.accounts[j]).email
            == p.state.accounts[j].email by {}
    }
    if p.state.distinct() {
        assert forall|j: int, k: int|
            0 <= j < after.accounts.len() && 0 <= k < after.accounts.len() && j != k implies (
        #[trigger] after.accounts[j]).email != (#[trigger] after.accounts[k]).email by {
            assert(p.state.accounts[j].email != p.state.accounts[k].email);
        }
    }
}

impl AccountPoolView {
    /// How many requests the first `n` accounts could still take now, if no interval had to
    /// pass between them.
    pub open spec fn slots(self, exclude: Set<Seq<char>>, now: int, n: int) -> int
        decreases n,
    {
        if n <= 0 {
            0
        } else {
            self.slots(exclude, now, n - 1) + if self.free(n - 1, exclude, now) {
                self.state.max_inflight_per_account - self.state.accounts[n - 1].inflight
            } else {
                0
            }
        }
    }

    /// How many requests the pool could still take now, if no interval had to pass.
    pub open spec fn room(self, exclude: Set<Seq<char>>, now: int) -> int {
        let slots = self.slots(exclude, now, self.state.accounts.len() as int);
        let open = self.state.global_max_inflight - self.state.global_in_use;
        if self.state.global_max_inflight <= 0 || slots <= open {
            slots
        } else if open >= 0 {
            open
        } else {
            0
        }
    }

    /// So many requests, one after the other, each get an account.
    pub open spec fn can_take(
        self,
        exclude: Set<Seq<char>>,
        now: int,
        jitter_ms: int,
        n: nat,
    ) -> bool
        decreases n,
    {
        n == 0 || {
            let (after, h) = self.taking(None, exclude, now, jitter_ms);
            h is Some && self.with_state(after).can_take(
                exclude,
                now,
                jitter_ms,
                (n - 1) as nat,
            )
        }
    }
}

proof fn lemma_slots(p: AccountPoolView, exclude: Set<Seq<char>>, now: int, n: int)
    requires
        0 <= n <= p.state.accounts.len(),
    ensures
        p.slots(exclude, now, n) >= 0,
        p.slots(exclude, now, n) > 0 <==> exists|i: int| 0 <= i < n && p.free(i, exclude, now),
    decreases n,
{
    if n > 0 {
        lemma_slots(p, exclude, now, n - 1);
        if p.free(n - 1, exclude, now) {
            assert(p.slots(exclude, now, n) > 0);
        } else if exists|i: int| 0 <= i < n && p.free(i, exclude, now) {
            let i = choose|i: int| 0 <= i < n && p.free(i, exclude, now);
            assert(0 <= i < n - 1);
        }
    }
}

proof fn lemma_slots_after(
    p: AccountPoolView,
    q: AccountPoolView,
    exclude: Set<Seq<char>>,
    now: int,
    jitter_ms: int,
    i: int,
    n: int,
)
    requires
        0 <= i < p.state.accounts.len(),
        0 <= n <= p.state.accounts.len(),
        p.free(i, exclude, now),
        p.min_interval_ms == 0,
        q.min_interval_ms == 0,
        q.state.max_inflight_per_account == p.state.max_inflight_per_account,
        q.state.accounts == p.state.accounts.update(i, p.state.accounts[i].taken(now, jitter_ms)),
    ensures
        q.slots(exclude, now, n) == p.slots(exclude, now, n) - if i < n {
            1int
        } else {
            0
        },
    decreases n,
{
    if n > 0 {
        lemma_slots_after(p, q, exclude, now, jitter_ms, i, n - 1);
        if n - 1 == i {
            let a = p.state.accounts[i];
            let b = q.state.accounts[i];
            assert(b.is_available(0, now));
        } else {
            assert(q.free(n - 1, exclude, now) == p.free(n - 1, exclude, now));
        }
    }
}

/// Without a least interval exactly so many requests in a row get an account as there is room
/// for.
pub proof fn lemma_takes_all_there_is_room_for(
    p: AccountPoolView,
    exclude: Set<Seq<char>>,
    now: int,
    jitter_ms: int,
    n: nat,
)
    requires
        p.current(now),
        p.state.use_index ==> p.state.distinct(),
        p.min_interval_ms == 0,
    ensures
        p.can_take(exclude, now, jitter_ms, n) <==> n <= p.room(exclude, now),
    decreases n,
{
    let len = p.state.accounts.len() as int;
    lemma_slots(p, exclude, now, len);
    if n > 0 {
        lemma_takes_if_and_only_if_free(p, None, exclude, now, jitter_ms);
        lemma_taking_keeps(p, None, exclude, now, jitter_ms);
        let (after, h) = p.taking(None, exclude, now, jitter_ms);
        let q = p.with_state(after);
        if h is Some {
            lemma_taken_was_free(p, None, exclude, now, jitter_ms);
            let i = choose|i: int| #[trigger] p.took(i, exclude, now, jitter_ms, after, h->0);
            lemma_slots_after(p, q, exclude, now, jitter_ms, i, len);
            lemma_takes_all_there_is_room_for(q, exclude, now, jitter_ms, (n - 1) as nat);
            lemma_slots(q, exclude, now, len);
        } else if !p.state.is_full() {
            assert(!(exists|i: int| 0 <= i < len && p.free(i, exclude, now)));
        }
    }
}

/// Without a least interval a pool with an index and one without it, with the same accounts
/// and limits, can serve the same number of requests.
pub proof fn lemma_index_and_scan_take_alike(
    p: AccountPoolView,
    q: AccountPoolView,
    exclude: Set<Seq<char>>,
    now: int,
    jitter_ms: int,
    n: nat,
)
    requires
        p.current(now),
        q.current(now),
        p.state.distinct(),
        p.min_interval_ms == 0,
        q.min_interval_ms == 0,
        p.state.use_index,
        !q.state.use_index,
        q.state.accounts == p.state.accounts,
        q.state.max_inflight_per_account == p.state.max_inflight_per_account,
        q.state.global_max_inflight == p.state.global_max_inflight,
        q.state.global_in_use == p.state.global_in_use,
    ensures
        p.can_take(exclude, now, jitter_ms, n) <==> q.can_take(exclude, now, jitter_ms, n),
{
    lemma_takes_all_there_is_room_for(p, exclude, now, jitter_ms, n);
    lemma_takes_all_there_is_room_for(q, exclude, now, jitter_ms, n);
    lemma_slots_same(p, q, exclude, now, p.state.accounts.len() as int);
}

proof fn lemma_slots_same(
    p: AccountPoolView,
    q: AccountPoolView,
    exclude: Set<Seq<char>>,
    now: int,
    n: int,
)
    requires
        p.min_interval_ms == q.min_interval_ms,
        q.state.accounts == p.state.accounts,
        q.state.max_inflight_per_account == p.state.max_inflight_per_account,
        0 <= n <= p.state.accounts.len(),
    ensures
        p.slots(exclude, now, n) == q.slots(exclude, now, n),
    decreases n,
{
    if n > 0 {
        lemma_slots_same(p, q, exclude, now, n - 1);
    }
}

/// An account that was taken is not taken again before the least interval has passed since
/// that request started.
pub proof fn lemma_interval_is_kept(
    p: AccountPoolView,
    first: (Option<Seq<char>>, Set<Seq<char>>, int),
    second: (Option<Seq<char>>, Set<Seq<char>>, int),
    now: int,
    later: int,
)
    requires
        p.current(now),
        p.state.distinct(),
        p.min_interval_ms > 0,
        now <= later < later_by(later_by(now, first.2), p.min_interval_ms),
    ensures
        ({
            let (mid, h) = p.taking(first.0, first.1, now, first.2);
            let (_, k) = p.with_state(mid).taking(second.0, second.1, later, second.2);
            h is Some && k is Some ==> h->0.email != k->0.email
        }),
{
    let (mid, h) = p.taking(first.0, first.1, now, first.2);
    let q = p.with_state(mid);
    let (end, k) = q.taking(second.0, second.1, later, second.2);
    if h is Some && k is Some {
        lemma_taken_was_free(p, first.0, first.1, now, first.2);
        lemma_taking_keeps(p, first.0, first.1, now, first.2);
        let i = choose|i: int| #[trigger] p.took(i, first.1, now, first.2, mid, h->0);
        if q.state.built_gen == q.interval_gen {
            lemma_agreement_lasts(q.state, q.min_interval_ms, now, later);
        }
        lemma_taken_was_free(q, second.0, second.1, later, second.2);
        let j = choose|j: int| #[trigger] q.took(j, second.1, later, second.2, end, k->0);
        assert(q.free(j, second.1, later));
        assert(mid.accounts[i].next_available_at(p.min_interval_ms) > later);
        assert(i != j);
    }
}

/// An account that has met a rate limit is not handed out before its cooldown is over.
pub proof fn lemma_cooldown_is_kept(
    p: AccountPoolView,
    email: Seq<char>,
    preferred: Option<Seq<char>>,
    exclude: Set<Seq<char>>,
    jitter_ms: int,
    take_jitter_ms: int,
    now: int,
    later: int,
)
    requires
        p.current(now),
        p.state.distinct(),
        0 <= jitter_ms,
        p.state.position(email) is Some,
        now <= later < now + (super::outcome::cooldown_secs(
            p.base_cooldown,
            p.max_cooldown,
            p.state.accounts[p.state.position(email)->0].rate_limit_strikes + 1,
        ) + jitter_ms / 1000) * 1_000_000,
    ensures
        ({
            let q = p.after(PoolOp::MarkRateLimited { email, jitter_ms }, now);
            let (_, h) = q.taking(preferred, exclude, later, take_jitter_ms);
            h is Some ==> h->0.email != email
        }),
{
    let op = PoolOp::MarkRateLimited { email, jitter_ms };
    let q = p.after(op, now);
    let (end, h) = q.taking(preferred, exclude, later, take_jitter_ms);
    lemma_every_operation_keeps_index(p, op, now, now);
    lemma_position(p.state, email);
    let i = p.state.position(email)->0;
    if h is Some {
        if q.state.built_gen == q.interval_gen {
            lemma_agreement_lasts(q.state, q.min_interval_ms, now, later);
        }
        lemma_taken_was_free(q, preferred, exclude, later, take_jitter_ms);
        let j = choose|j: int| #[trigger] q.took(j, exclude, later, take_jitter_ms, end, h->0);
        assert(q.free(j, exclude, later));
        assert(q.state.accounts[i].rate_limited_until > later);
        assert(i != j);
        if h->0.email == email {
            assert(p.state.accounts[j].email == email);
            assert(p.state.accounts[i].email == email);
        }
    }
}

/// Giving back what was taken restores the load of every account and of the pool.
pub proof fn lemma_release_undoes_acquire(
    p: AccountPoolView,
    preferred: Option<Seq<char>>,
    exclude: Set<Seq<char>>,
    jitter_ms: int,
    now: int,
    later: int,
)
    requires
        p.current(now),
        p.state.distinct(),
        p.state.global_in_use >= 0,
        forall|i: int|
            0 <= i < p.state.accounts.len() ==> (#[trigger] p.state.accounts[i]).inflight >= 0,
    ensures
        ({
            let (mid, h) = p.taking(preferred, exclude, now, jitter_ms);
            h is Some ==> {
                let end = mid.released(h->0.email, p.min_interval_ms, later);
                &&& end.global_in_use == p.state.global_in_use
                &&& end.accounts.len() == p.state.accounts.len()
                &&& forall|i: int|
                    0 <= i < end.accounts.len() ==> (#[trigger] end.accounts[i]).inflight
                        == p.state.accounts[i].inflight
            }
        }),
{
    let (mid, h) = p.taking(preferred, exclude, now, jitter_ms);
    if h is Some {
        lemma_taken_was_free(p, preferred, exclude, now, jitter_ms);
        lemma_taking_keeps(p, preferred, exclude, now, jitter_ms);
        let i = choose|i: int| #[trigger] p.took(i, exclude, now, jitter_ms, mid, h->0);
        let e = h->0.email;
        lemma_position(mid, e);
        assert(mid.accounts[i].email == e);
        let k = mid.position(e)->0;
        assert(mid.accounts[k].email == e);
        assert(k == i);
        let end = mid.released(e, p.min_interval_ms, later);
        assert(end.accounts =~= mid.accounts.update(i, mid.accounts[i].released(later)));
    }
}

/// The preferred account is the one that is handed out, where it is free.
pub proof fn lemma_preferred_comes_first(
    p: AccountPoolView,
    i: int,
    exclude: Set<Seq<char>>,
    now: int,
    jitter_ms: int,
)
    requires
        p.current(now),
        p.state.distinct(),
        !p.state.is_full(),
        p.free(i, exclude, now),
    ensures
        p.taking(Some(p.state.accounts[i].email), exclude, now, jitter_ms).1 == Some(
            p.state.accounts[i].handle(),
        ),
{
    let s = p.state;
    let min_ms = p.min_interval_ms;
    let cap = s.max_inflight_per_account;
    let e = s.accounts[i].email;
    lemma_takes_if_and_only_if_free(p, Some(e), exclude, now, jitter_ms);
    if s.use_index {
        let f = s.refreshed(p.interval_gen, min_ms, now);
        lemma_rebuilt(s, min_ms, now);
        let ix = f.idx->0;
        lemma_warmed(ix, f.accounts, cap, min_ms, now);
        let warm = ix.warmed(f.accounts, cap, min_ms, now);
        assert(f.accounts[i].email == e);
        assert(warm.pos.contains_key(e));
        let k = warm.pos[e] as int;
        assert(f.accounts[k].email == e);
        assert(k == i);
        assert(warm.loc[e] == place_of(warm.account(f.accounts, e), cap, min_ms, now));
        assert(warm.prefers(Some(e), exclude));
    } else {
        let c = choose|c: int| s.is_scan_choice(c, Some(e), exclude, min_ms, now);
        assert(s.candidate(i, exclude, min_ms, now));
        assert(s.eligible(c, Some(e), exclude, min_ms, now));
        assert(s.accounts[c].email == e);
        assert(c == i);
    }
}

/// The load stays within the limits: of a pool that keeps to its limit over all accounts, and
/// of the account that is taken.
pub proof fn lemma_limits_are_kept(
    p: AccountPoolView,
    preferred: Option<Seq<char>>,
    exclude: Set<Seq<char>>,
    now: int,
    jitter_ms: int,
)
    requires
        p.current(now),
        p.state.global_max_inflight > 0 ==> p.state.global_in_use <= p.state.global_max_inflight,
    ensures
        ({
            let (after, h) = p.taking(preferred, exclude, now, jitter_ms);
            &&& after.global_max_inflight > 0 ==> after.global_in_use <= after.global_max_inflight
            &&& forall|i: int|
                0 <= i < after.accounts.len() ==> (#[trigger] after.accounts[i]).inflight
                    <= after.max_inflight_per_account || after.accounts[i]
                    == p.state.accounts[i]
        }),
{
    let (after, h) = p.taking(preferred, exclude, now, jitter_ms);
    lemma_taking_keeps(p, preferred, exclude, now, jitter_ms);
    lemma_taken_was_free(p, preferred, exclude, now, jitter_ms);
    if h is Some {
        let i = choose|i: int| #[trigger] p.took(i, exclude, now, jitter_ms, after, h->0);
        assert(p.free(i, exclude, now));
    }
}

} // verus!
