//! Taking an account out of the pool.

use vstd::multiset::*;
use vstd::prelude::*;
use vstd::string::*;

use super::handle::{AccountHandle, HandleView};
use super::index::{cooldown_entry, mentions, ready_entry, IndexView, Loc};
use super::state::{PoolState, PoolView};
use super::warm::lemma_warmed;
use crate::account::{later_by, AccountView};
use crate::email_set::EmailSet;
use crate::heap::EntryView;
use crate::text::{opt_str_view, str_eq};

verus! {

impl AccountView {
    /// The account with one more request, which starts after the jitter.
    pub open spec fn taken(self, now: int, jitter_ms: int) -> AccountView {
        AccountView {
            inflight: self.inflight + 1,
            last_used: now,
            last_request_started: later_by(now, jitter_ms),
            ..self
        }
    }

    /// What the taker gets.
    pub open spec fn handle(self) -> HandleView {
        HandleView { email: self.email, token: self.token }
    }
}

impl PoolView {
    /// As many requests are under way as may be.
    pub open spec fn is_full(self) -> bool {
        self.global_max_inflight > 0 && self.global_in_use >= self.global_max_inflight
    }

    /// The places in the index agree with the loads of the accounts.
    pub open spec fn loads_agree(self) -> bool {
        self.idx matches Some(ix) ==> ix.loads_agree(self.accounts, self.max_inflight_per_account)
    }

    /// Taking an account by way of the index: the state after it, and what the taker gets.
    pub open spec fn acquired_indexed(
        self,
        preferred: Option<Seq<char>>,
        exclude: Set<Seq<char>>,
        min_ms: int,
        now: int,
        jitter_ms: int,
    ) -> (PoolView, Option<HandleView>) {
        if self.is_full() {
            (self, None)
        } else {
            let cap = self.max_inflight_per_account;
            let warm = self.idx->0.warmed(self.accounts, cap, min_ms, now);
            let left = warm.picked(self.accounts, preferred, exclude);
            match warm.choice(self.accounts, preferred, exclude) {
                None => (PoolView { idx: Some(left), ..self }, None),
                Some(e) => {
                    let a = warm.account(self.accounts, e);
                    let b = a.taken(now, jitter_ms);
                    (
                        PoolView {
                            accounts: self.accounts.update(warm.pos[e] as int, b),
                            global_in_use: self.global_in_use + 1,
                            idx: Some(left.placed(b, cap, min_ms, now)),
                            ..self
                        },
                        Some(a.handle()),
                    )
                },
            }
        }
    }

    /// The account may be taken.
    pub open spec fn candidate(
        self,
        i: int,
        exclude: Set<Seq<char>>,
        min_ms: int,
        now: int,
    ) -> bool {
        &&& 0 <= i < self.accounts.len()
        &&& self.accounts[i].is_available(min_ms, now)
        &&& self.accounts[i].inflight < self.max_inflight_per_account
        &&& !exclude.contains(self.accounts[i].email)
    }

    /// The account may be taken, and has the preferred address if any that may be taken has.
    pub open spec fn eligible(
        self,
        i: int,
        preferred: Option<Seq<char>>,
        exclude: Set<Seq<char>>,
        min_ms: int,
        now: int,
    ) -> bool {
        &&& self.candidate(i, exclude, min_ms, now)
        &&& (preferred matches Some(pe) ==> self.accounts[i].email == pe || forall|j: int|
            self.candidate(j, exclude, min_ms, now) ==> (#[trigger] self.accounts[j]).email != pe)
    }

    /// Account `i` is to be taken before account `j`: it carries less, or was started on or
    /// used longer ago, or stands earlier in the list.
    pub open spec fn before(self, i: int, j: int) -> bool {
        let (a, b) = (self.accounts[i], self.accounts[j]);
        if a.inflight != b.inflight {
            a.inflight < b.inflight
        } else if a.last_request_started != b.last_request_started {
            a.last_request_started < b.last_request_started
        } else if a.last_used != b.last_used {
            a.last_used < b.last_used
        } else {
            i < j
        }
    }

    /// Account `i` is the one to take.
    pub open spec fn is_scan_choice(
        self,
        i: int,
        preferred: Option<Seq<char>>,
        exclude: Set<Seq<char>>,
        min_ms: int,
        now: int,
    ) -> bool {
        &&& self.eligible(i, preferred, exclude, min_ms, now)
        &&& forall|j: int| #[trigger]
            self.eligible(j, preferred, exclude, min_ms, now) ==> j == i || self.before(i, j)
    }

    /// No other account may be taken.
    pub open spec fn only_candidate(
        self,
        i: int,
        exclude: Set<Seq<char>>,
        min_ms: int,
        now: int,
    ) -> bool {
        forall|j: int| #[trigger] self.candidate(j, exclude, min_ms, now) ==> j == i
    }

    /// Taking an account by looking at all of them: the state after it, and what the taker
    /// gets. An account without an alternative becomes the sticky one.
    pub open spec fn acquired_scan(
        self,
        preferred: Option<Seq<char>>,
        exclude: Set<Seq<char>>,
        min_ms: int,
        now: int,
        jitter_ms: int,
    ) -> (PoolView, Option<HandleView>) {
        if self.is_full() {
            (self, None)
        } else if exists|i: int| self.is_scan_choice(i, preferred, exclude, min_ms, now) {
            let i = choose|i: int| self.is_scan_choice(i, preferred, exclude, min_ms, now);
            let a = self.accounts[i];
            (
                PoolView {
                    accounts: self.accounts.update(i, a.taken(now, jitter_ms)),
                    global_in_use: self.global_in_use + 1,
                    sticky_email: if self.only_candidate(i, exclude, min_ms, now) {
                        Some(a.email)
                    } else {
                        self.sticky_email
                    },
                    ..self
                },
                Some(a.handle()),
            )
        } else {
            (self, None)
        }
    }

    /// The state with an index for this generation of the least interval.
    pub open spec fn refreshed(self, gen: int, min_ms: int, now: int) -> PoolView {
        if self.built_gen != gen {
            PoolView { built_gen: gen, ..self.rebuilt(min_ms, now) }
        } else {
            self
        }
    }

    /// Taking an account: the state after it, and what the taker gets.
    pub open spec fn acquired(
        self,
        gen: int,
        preferred: Option<Seq<char>>,
        exclude: Set<Seq<char>>,
        min_ms: int,
        now: int,
        jitter_ms: int,
    ) -> (PoolView, Option<HandleView>) {
        if self.use_index {
            self.refreshed(gen, min_ms, now).acquired_indexed(
                preferred,
                exclude,
                min_ms,
                now,
                jitter_ms,
            )
        } else {
            self.acquired_scan(preferred, exclude, min_ms, now, jitter_ms)
        }
    }
}

/// Only one account is the one to take.
pub proof fn lemma_scan_choice_unique(
    p: PoolView,
    i: int,
    j: int,
    preferred: Option<Seq<char>>,
    exclude: Set<Seq<char>>,
    min_ms: int,
    now: int,
)
    requires
        p.is_scan_choice(i, preferred, exclude, min_ms, now),
        p.is_scan_choice(j, preferred, exclude, min_ms, now),
    ensures
        i == j,
{
}

/// What is chosen from an index that is about its accounts is one of its addresses, and is
/// ready.
pub proof fn lemma_choice(
    ix: IndexView,
    accounts: Seq<AccountView>,
    preferred: Option<Seq<char>>,
    exclude: Set<Seq<char>>,
)
    requires
        ix.fits(accounts),
    ensures
        ix.choice(accounts, preferred, exclude) matches Some(e) ==> ix.loc.contains_key(e)
            && ix.pos.contains_key(e) && ix.loc[e] == Loc::Ready && !exclude.contains(e)
            && ix.pos[e] < accounts.len() && ix.account(accounts, e).email == e,
{
}

/// Taking an account keeps the index about its accounts, and keeps the loads in agreement.
pub proof fn lemma_taken_fits(
    left: IndexView,
    accounts: Seq<AccountView>,
    e: Seq<char>,
    b: AccountView,
    cap: int,
    min_ms: int,
    now: int,
)
    requires
        left.pos.contains_key(e),
        b.email == e,
        left.pos[e] < accounts.len(),
        accounts[left.pos[e] as int].email == e,
        forall|k: Seq<char>| #[trigger]
            left.pos.contains_key(k) ==> left.pos[k] < accounts.len()
                && accounts[left.pos[k] as int].email == k,
        forall|i: int|
            0 <= i < accounts.len() ==> left.pos.contains_key((#[trigger] accounts[i]).email) && i
                <= left.pos[accounts[i].email],
        left.loc.dom() == left.pos.dom(),
        forall|k: Seq<char>| #[trigger]
            left.loc.contains_key(k) && left.loc[k] == Loc::Cooldown ==> mentions(left.cooldown, k),
        forall|x: EntryView| #[trigger] left.cooldown.contains(x) ==> x.rank == 0,
    ensures
        left.placed(b, cap, min_ms, now).fits(accounts.update(left.pos[e] as int, b)),
        (forall|k: Seq<char>| #[trigger]
            left.pos.contains_key(k) && k != e ==> left.load_agrees_at(accounts, cap, k))
            ==> left.placed(b, cap, min_ms, now).loads_agree(
            accounts.update(left.pos[e] as int, b),
            cap,
        ),
        (forall|k: Seq<char>| #[trigger]
            left.pos.contains_key(k) && k != e ==> left.agrees_at(accounts, cap, min_ms, now, k))
            ==> left.placed(b, cap, min_ms, now).agrees(
            accounts.update(left.pos[e] as int, b),
            cap,
            min_ms,
            now,
        ),
{
    broadcast use vstd::multiset::group_multiset_axioms;

    let i = left.pos[e] as int;
    let after = left.placed(b, cap, min_ms, now);
    let list = accounts.update(i, b);
    assert(after.loc.dom() =~= after.pos.dom());
    super::state::lemma_mentions_grow(left.cooldown, after.cooldown);
    assert forall|k: int| 0 <= k < list.len() implies after.pos.contains_key(
        (#[trigger] list[k]).email,
    ) && k <= after.pos[list[k].email] by {
        assert(left.pos.contains_key(accounts[k].email));
    }
    assert forall|k: Seq<char>| #[trigger] after.loc.contains_key(k) && after.loc[k]
        == Loc::Cooldown implies mentions(after.cooldown, k) by {
        if k == e {
            assert(after.cooldown.contains(cooldown_entry(b, min_ms)));
        } else {
            assert(left.loc.contains_key(k));
        }
    }
    assert forall|x: EntryView| #[trigger] after.cooldown.contains(x) implies x.rank == 0 by {
        if x != cooldown_entry(b, min_ms) {
            assert(left.cooldown.contains(x));
        }
    }
    assert forall|k: Seq<char>| #[trigger] after.pos.contains_key(k) implies after.account(list, k)
        == if k == e {
        b
    } else {
        left.account(accounts, k)
    } by {
        assert(left.pos.contains_key(k));
    }
    if forall|k: Seq<char>| #[trigger]
        left.pos.contains_key(k) && k != e ==> left.agrees_at(accounts, cap, min_ms, now, k) {
        assert forall|k: Seq<char>| #[trigger] after.pos.contains_key(k) implies after.agrees_at(
            list,
            cap,
            min_ms,
            now,
            k,
        ) by {
            assert(left.pos.contains_key(k));
            if k != e {
                assert(left.agrees_at(accounts, cap, min_ms, now, k));
            }
        }
    }
    if forall|k: Seq<char>| #[trigger]
        left.pos.contains_key(k) && k != e ==> left.load_agrees_at(accounts, cap, k) {
        assert forall|k: Seq<char>| #[trigger] after.pos.contains_key(
            k,
        ) implies after.load_agrees_at(list, cap, k) by {
            assert(left.pos.contains_key(k));
            if k != e {
                assert(left.load_agrees_at(accounts, cap, k));
            }
        }
    }
}

/// Taking an account by way of the index keeps the index about its accounts and in agreement
/// with them.
pub proof fn lemma_acquired_indexed(
    p: PoolView,
    preferred: Option<Seq<char>>,
    exclude: Set<Seq<char>>,
    min_ms: int,
    now: int,
    jitter_ms: int,
)
    requires
        p.wf(),
        p.use_index,
    ensures
        ({
            let (q, h) = p.acquired_indexed(preferred, exclude, min_ms, now, jitter_ms);
            &&& q.wf()
            &&& p.loads_agree() ==> q.loads_agree()
            &&& p.agrees(min_ms, now) ==> q.agrees(min_ms, now)
        }),
{
    let cap = p.max_inflight_per_account;
    let ix = p.idx->0;
    if !p.is_full() {
        lemma_warmed(ix, p.accounts, cap, min_ms, now);
        let warm = ix.warmed(p.accounts, cap, min_ms, now);
        let left = warm.picked(p.accounts, preferred, exclude);
        lemma_choice(warm, p.accounts, preferred, exclude);
        lemma_picked_agrees(warm, p.accounts, cap, min_ms, now, preferred, exclude);
        match warm.choice(p.accounts, preferred, exclude) {
            None => {
                assert(left.fits(p.accounts));
            },
            Some(e) => {
                let b = warm.account(p.accounts, e).taken(now, jitter_ms);
                lemma_taken_fits(left, p.accounts, e, b, cap, min_ms, now);
            },
        }
    }
}

/// What the choice leaves still agrees with the accounts, but for the one that was chosen.
proof fn lemma_picked_agrees(
    ix: IndexView,
    accounts: Seq<AccountView>,
    cap: int,
    min_ms: int,
    now: int,
    preferred: Option<Seq<char>>,
    exclude: Set<Seq<char>>,
)
    requires
        ix.fits(accounts),
    ensures
        ({
            let left = ix.picked(accounts, preferred, exclude);
            let chosen = ix.choice(accounts, preferred, exclude);
            &&& ix.loads_agree(accounts, cap) ==> forall|k: Seq<char>| #[trigger]
                left.pos.contains_key(k) && chosen != Some(k) ==> left.load_agrees_at(
                    accounts,
                    cap,
                    k,
                )
            &&& ix.agrees(accounts, cap, min_ms, now) ==> forall|k: Seq<char>| #[trigger]
                left.pos.contains_key(k) && chosen != Some(k) ==> left.agrees_at(
                    accounts,
                    cap,
                    min_ms,
                    now,
                    k,
                )
        }),
{
    broadcast use vstd::multiset::group_multiset_axioms;

    let left = ix.picked(accounts, preferred, exclude);
    let chosen = ix.choice(accounts, preferred, exclude);
    assert forall|k: Seq<char>| #[trigger]
        left.pos.contains_key(k) && chosen != Some(k) && ix.load_agrees_at(
            accounts,
            cap,
            k,
        ) implies left.load_agrees_at(accounts, cap, k) by {
        let a = ix.account(accounts, k);
        assert(ix.pos.contains_key(k) && ix.loc.contains_key(k));
        assert(a.email == k);
        if ix.loc[k] == Loc::Ready {
            let x = ready_entry(a);
            assert(ix.ready.contains(x));
            assert(!ix.stale(accounts, x));
            assert(left.ready.contains(x));
        }
    }
    if ix.agrees(accounts, cap, min_ms, now) {
        assert forall|k: Seq<char>| #[trigger]
            left.pos.contains_key(k) && chosen != Some(k) implies left.agrees_at(
            accounts,
            cap,
            min_ms,
            now,
            k,
        ) by {
            assert(ix.pos.contains_key(k));
            assert(ix.agrees_at(accounts, cap, min_ms, now, k));
        }
    }
    if ix.loads_agree(accounts, cap) {
        assert forall|k: Seq<char>| #[trigger]
            left.pos.contains_key(k) && chosen != Some(k) implies left.load_agrees_at(
            accounts,
            cap,
            k,
        ) by {
            assert(ix.pos.contains_key(k));
            assert(ix.load_agrees_at(accounts, cap, k));
        }
    }
}

/// The view of an optional handle.
pub open spec fn opt_handle_view(h: Option<AccountHandle>) -> Option<HandleView> {
    match h {
        Some(v) => Some(v@),
        None => None,
    }
}

impl PoolState {
    /// Adds one request to an account. Returns what the taker gets.
    fn take(&mut self, p: usize, now: u64, jitter_ms: u64) -> (r: AccountHandle)
        requires
            p < old(self).accounts@.len(),
            old(self).accounts@[p as int].inflight < i64::MAX,
            old(self).global_in_use < i64::MAX,
        ensures
            final(self)@ == (PoolView {
                accounts: old(self)@.accounts.update(
                    p as int,
                    old(self)@.accounts[p as int].taken(now as int, jitter_ms as int),
                ),
                global_in_use: old(self)@.global_in_use + 1,
                ..old(self)@
            }),
            final(self).idx == old(self).idx,
            r@ == old(self)@.accounts[p as int].handle(),
    {
        let ghost all = self@.accounts;
        let ghost a0 = self.accounts@[p as int]@;
        let started: u128 = now as u128 + jitter_ms as u128 * 1000;
        let acc = &mut self.accounts[p];
        acc.inflight = acc.inflight + 1;
        acc.last_used = now as u128;
        acc.last_request_started = started;
        let r = AccountHandle { email: acc.email.clone(), token: acc.token.clone() };
        self.global_in_use = self.global_in_use + 1;
        proof {
            assert(all[p as int] == a0);
            assert(self@.accounts =~= all.update(
                p as int,
                a0.taken(now as int, jitter_ms as int),
            ));
        }
        r
    }

    /// Takes an account by way of the index.
    pub fn acquire_indexed(
        &mut self,
        preferred: Option<&str>,
        exclude: &EmailSet,
        min_ms: u64,
        now: u64,
        jitter_ms: u64,
    ) -> (r: Option<AccountHandle>)
        requires
            old(self).wf(),
            old(self).use_index,
            old(self)@.loads_agree(),
            old(self).global_in_use < i64::MAX,
        ensures
            (final(self)@, opt_handle_view(r)) == old(self)@.acquired_indexed(
                opt_str_view(preferred),
                exclude@,
                min_ms as int,
                now as int,
                jitter_ms as int,
            ),
            final(self).wf(),
            final(self)@.loads_agree(),
    {
        let ghost p0 = self@;
        let ghost want = opt_str_view(preferred);
        proof {
            lemma_acquired_indexed(
                p0,
                want,
                exclude@,
                min_ms as int,
                now as int,
                jitter_ms as int,
            );
        }
        if self.global_max_inflight > 0 && self.global_in_use >= self.global_max_inflight {
            return None;
        }
        let cap: i64 = self.max_inflight_per_account;
        let ghost warm = p0.idx->0.warmed(p0.accounts, cap as int, min_ms as int, now as int);
        proof {
            lemma_warmed(p0.idx->0, p0.accounts, cap as int, min_ms as int, now as int);
            lemma_choice(warm, p0.accounts, want, exclude@);
        }
        let mut found: Option<usize> = None;
        match self.idx.as_mut() {
            Some(ix) => {
                ix.warm(&self.accounts, cap, min_ms, now);
                match ix.select(&self.accounts, preferred, exclude) {
                    Some(email) => {
                        match ix.pos.get(email.as_str()) {
                            Some(p) => {
                                found = Some(*p);
                            },
                            None => {
                                assert(false);
                            },
                        }
                    },
                    None => {},
                }
            },
            None => {},
        }
        assert(self@ =~= PoolView { idx: Some(warm.picked(p0.accounts, want, exclude@)), ..p0 });
        match found {
            None => None,
            Some(p) => {
                let ghost e = warm.choice(p0.accounts, want, exclude@)->0;
                assert(warm.pos[e] == p);
                assert(p0.accounts[p as int] == warm.account(p0.accounts, e));
                assert(warm.loads_agree(p0.accounts, cap as int));
                let r = self.take(p, now, jitter_ms);
                match self.idx.as_mut() {
                    Some(ix) => {
                        ix.place(&self.accounts[p], cap, min_ms, now);
                    },
                    None => {},
                }
                Some(r)
            },
        }
    }

    /// Whether account `i` is to be taken before account `j`.
    fn goes_before(&self, i: usize, j: usize) -> (r: bool)
        requires
            i < self.accounts@.len(),
            j < self.accounts@.len(),
        ensures
            r == self@.before(i as int, j as int),
    {
        let a = &self.accounts[i];
        let b = &self.accounts[j];
        if a.inflight != b.inflight {
            a.inflight < b.inflight
        } else if a.last_request_started != b.last_request_started {
            a.last_request_started < b.last_request_started
        } else if a.last_used != b.last_used {
            a.last_used < b.last_used
        } else {
            i < j
        }
    }

    /// Takes an account by looking at all of them.
    pub fn acquire_scan(
        &mut self,
        preferred: Option<&str>,
        exclude: &EmailSet,
        min_ms: u64,
        now: u64,
        jitter_ms: u64,
    ) -> (r: Option<AccountHandle>)
        requires
            old(self).wf(),
            !old(self).use_index,
            old(self).global_in_use < i64::MAX,
        ensures
            (final(self)@, opt_handle_view(r)) == old(self)@.acquired_scan(
                opt_str_view(preferred),
                exclude@,
                min_ms as int,
                now as int,
                jitter_ms as int,
            ),
            final(self).wf(),
    {
        let ghost p0 = self@;
        let ghost want = opt_str_view(preferred);
        if self.global_max_inflight > 0 && self.global_in_use >= self.global_max_inflight {
            return None;
        }
        let cap: i64 = self.max_inflight_per_account;
        // The first of all candidates, and the first of those with the preferred address.
        let mut first: Option<usize> = None;
        let mut favoured: Option<usize> = None;
        let mut only_one = true;
        let mut i: usize = 0;
        while i < self.accounts.len()
            invariant
                self@ == p0,
                self.wf(),
                !self.use_index,
                cap == p0.max_inflight_per_account,
                i <= self.accounts@.len(),
                self.accounts@.len() == p0.accounts.len(),
                want == opt_str_view(preferred),
                match first {
                    Some(f) => {
                        &&& f < i
                        &&& p0.candidate(f as int, exclude@, min_ms as int, now as int)
                        &&& forall|j: int|
                            0 <= j < i && #[trigger] p0.candidate(
                                j,
                                exclude@,
                                min_ms as int,
                                now as int,
                            ) ==> j == f || p0.before(f as int, j)
                    },
                    None => forall|j: int|
                        0 <= j < i ==> !#[trigger] p0.candidate(
                            j,
                            exclude@,
                            min_ms as int,
                            now as int,
                        ),
                },
                match favoured {
                    Some(f) => {
                        &&& want is Some
                        &&& f < i
                        &&& p0.candidate(f as int, exclude@, min_ms as int, now as int)
                        &&& p0.accounts[f as int].email == want->0
                        &&& forall|j: int|
                            0 <= j < i && #[trigger] p0.candidate(
                                j,
                                exclude@,
                                min_ms as int,
                                now as int,
                            ) && p0.accounts[j].email == want->0 ==> j == f || p0.before(
                                f as int,
                                j,
                            )
                    },
                    None => want matches Some(pe) ==> forall|j: int|
                        0 <= j < i && #[trigger] p0.candidate(
                            j,
                            exclude@,
                            min_ms as int,
                            now as int,
                        ) ==> p0.accounts[j].email != pe,
                },
                only_one ==> forall|j: int|
                    0 <= j < i && #[trigger] p0.candidate(j, exclude@, min_ms as int, now as int)
                        ==> first == Some(j as usize),
                !only_one ==> exists|j: int, k: int|
                    0 <= j < i && 0 <= k < i && j != k && #[trigger] p0.candidate(
                        j,
                        exclude@,
                        min_ms as int,
                        now as int,
                    ) && #[trigger] p0.candidate(k, exclude@, min_ms as int, now as int),
            decreases self.accounts@.len() - i,
        {
            let acc = &self.accounts[i];
            assert(acc@ == p0.accounts[i as int]);
            if acc.is_available(min_ms, now) && acc.inflight < cap && !exclude.contains(
                acc.email.as_str(),
            ) {
                assert(p0.candidate(i as int, exclude@, min_ms as int, now as int));
                match first {
                    None => {
                        first = Some(i);
                    },
                    Some(f) => {
                        only_one = false;
                        assert(p0.candidate(f as int, exclude@, min_ms as int, now as int));
                        if self.goes_before(i, f) {
                            first = Some(i);
                        }
                    },
                }
                if let Some(pe) = preferred {
                    if str_eq(acc.email.as_str(), pe) {
                        favoured = match favoured {
                            None => Some(i),
                            Some(f) => if self.goes_before(i, f) {
                                Some(i)
                            } else {
                                Some(f)
                            },
                        };
                    }
                }
            }
            i = i + 1;
        }
        let chosen: Option<usize> = match favoured {
            Some(f) => Some(f),
            None => first,
        };
        match chosen {
            None => {
                assert forall|j: int|
                    !p0.is_scan_choice(j, want, exclude@, min_ms as int, now as int) by {
                    assert(!p0.candidate(j, exclude@, min_ms as int, now as int));
                }
                None
            },
            Some(c) => {
                proof {
                    let ci = c as int;
                    assert(p0.eligible(ci, want, exclude@, min_ms as int, now as int));
                    assert(p0.is_scan_choice(ci, want, exclude@, min_ms as int, now as int)) by {
                        assert forall|j: int| #[trigger]
                            p0.eligible(j, want, exclude@, min_ms as int, now as int) implies j
                            == ci || p0.before(ci, j) by {
                            assert(p0.candidate(j, exclude@, min_ms as int, now as int));
                            if favoured is Some {
                                assert(p0.accounts[ci].email == want->0);
                                assert(p0.accounts[j].email == want->0);
                            }
                        }
                    }
                    let w = choose|w: int|
                        p0.is_scan_choice(w, want, exclude@, min_ms as int, now as int);
                    lemma_scan_choice_unique(
                        p0,
                        w,
                        ci,
                        want,
                        exclude@,
                        min_ms as int,
                        now as int,
                    );
                    assert(p0.candidate(ci, exclude@, min_ms as int, now as int));
                    if only_one {
                        assert forall|j: int| #[trigger]
                            p0.candidate(j, exclude@, min_ms as int, now as int) implies j
                            == ci by {
                            assert(first == Some(ci as usize));
                            assert(first == Some(j as usize));
                        }
                    } else {
                        let (j, k) = choose|j: int, k: int|
                            0 <= j < i && 0 <= k < i && j != k && #[trigger] p0.candidate(
                                j,
                                exclude@,
                                min_ms as int,
                                now as int,
                            ) && #[trigger] p0.candidate(
                                k,
                                exclude@,
                                min_ms as int,
                                now as int,
                            );
                        assert(p0.candidate(j, exclude@, min_ms as int, now as int));
                        assert(p0.candidate(k, exclude@, min_ms as int, now as int));
                        assert(!p0.only_candidate(ci, exclude@, min_ms as int, now as int));
                    }
                }
                let r = self.take(c, now, jitter_ms);
                if only_one {
                    self.sticky_email = Some(r.email.clone());
                }
                Some(r)
            },
        }
    }

    /// Takes an account, after building the index anew where it belongs to another generation
    /// of the least interval.
    pub fn acquire(
        &mut self,
        gen: u64,
        preferred: Option<&str>,
        exclude: &EmailSet,
        min_ms: u64,
        now: u64,
        jitter_ms: u64,
    ) -> (r: Option<AccountHandle>)
        requires
            old(self).wf(),
            old(self)@.loads_agree(),
            old(self).global_in_use < i64::MAX,
        ensures
            (final(self)@, opt_handle_view(r)) == old(self)@.acquired(
                gen as int,
                opt_str_view(preferred),
                exclude@,
                min_ms as int,
                now as int,
                jitter_ms as int,
            ),
            final(self).wf(),
            final(self)@.loads_agree(),
    {
        if self.use_index {
            if self.built_gen != gen {
                // The number of accounts fits in a machine word.
                let _count: usize = self.accounts.len();
                proof {
                    super::state::lemma_built_fits(
                        self@.accounts,
                        self@.max_inflight_per_account,
                        min_ms as int,
                        now as int,
                    );
                }
                self.rebuild_index(min_ms, now);
                self.built_gen = gen;
            }
            self.acquire_indexed(preferred, exclude, min_ms, now, jitter_ms)
        } else {
            self.acquire_scan(preferred, exclude, min_ms, now, jitter_ms)
        }
    }
}

} // verus!
