//! What the pool keeps of its accounts and limits.

use vstd::multiset::*;
use vstd::prelude::*;
use vstd::string::*;

use super::index::{cooldown_entry, mentions, IndexView, Loc, ReadyIndex};
use crate::account::{Account, AccountView};
use crate::heap::EntryView;
use crate::text::str_eq;

verus! {

/// The state of the pool, as a mathematical value.
#[verifier::ext_equal]
pub struct PoolView {
    pub accounts: Seq<AccountView>,
    pub max_inflight_per_account: int,
    /// How many requests may be under way over all accounts; no limit unless positive.
    pub global_max_inflight: int,
    /// How many requests may wait; none unless positive.
    pub max_queue_size: int,
    pub global_in_use: int,
    /// The limit over all accounts that an administrator has set.
    pub admin_global: Option<int>,
    pub sticky_email: Option<Seq<char>>,
    pub use_index: bool,
    pub idx: Option<IndexView>,
    /// The generation of the least interval that the index was built for.
    pub built_gen: int,
}

/// `i` is the first account with this address.
pub open spec fn is_first(accounts: Seq<AccountView>, email: Seq<char>, i: int) -> bool {
    &&& 0 <= i < accounts.len()
    &&& accounts[i].email == email
    &&& forall|j: int| 0 <= j < i ==> (#[trigger] accounts[j]).email != email
}

/// How many accounts are healthy.
pub open spec fn healthy_count(accounts: Seq<AccountView>, now: int) -> int
    decreases accounts.len(),
{
    if accounts.len() == 0 {
        0
    } else {
        healthy_count(accounts.drop_last(), now) + if accounts.last().is_healthy(now) {
            1int
        } else {
            0
        }
    }
}

/// The limit over all accounts that follows from the healthy ones: so many requests on each
/// (at least one).
pub open spec fn recommended_limit(accounts: Seq<AccountView>, cap: int, now: int) -> int {
    healthy_count(accounts, now) * if cap >= 1 {
        cap
    } else {
        1
    }
}

impl PoolView {
    /// The index is there when it is in use, and it is about these accounts.
    pub open spec fn wf(self) -> bool {
        &&& self.use_index == (self.idx is Some)
        &&& self.idx matches Some(ix) ==> ix.fits(self.accounts)
    }

    /// Where in the list an address is found: by the index, else the first account with it.
    pub open spec fn position(self, email: Seq<char>) -> Option<int> {
        match self.idx {
            Some(ix) => if ix.pos.contains_key(email) {
                Some(ix.pos[email] as int)
            } else {
                None
            },
            None => if exists|i: int| is_first(self.accounts, email, i) {
                Some(choose|i: int| is_first(self.accounts, email, i))
            } else {
                None
            },
        }
    }

    /// The token of the account with an address.
    pub open spec fn token_of(self, email: Seq<char>) -> Option<Seq<char>> {
        match self.position(email) {
            Some(i) => Some(self.accounts[i].token),
            None => None,
        }
    }

    /// The state with one account replaced.
    pub open spec fn with_account(self, i: int, a: AccountView) -> PoolView {
        PoolView { accounts: self.accounts.update(i, a), ..self }
    }

    /// The state after the account of an address has been put in its place.
    pub open spec fn reindexed(self, email: Seq<char>, min_ms: int, now: int) -> PoolView {
        match self.idx {
            Some(ix) => if self.use_index && ix.pos.contains_key(email) {
                PoolView {
                    idx: Some(
                        ix.placed(
                            ix.account(self.accounts, email),
                            self.max_inflight_per_account,
                            min_ms,
                            now,
                        ),
                    ),
                    ..self
                }
            } else {
                self
            },
            None => self,
        }
    }

    /// The state with the index built anew.
    pub open spec fn rebuilt(self, min_ms: int, now: int) -> PoolView {
        match self.idx {
            Some(_) => PoolView {
                idx: Some(
                    IndexView::built(self.accounts, self.max_inflight_per_account, min_ms, now),
                ),
                ..self
            },
            None => self,
        }
    }

    /// The limit that is in force: the administrator's, else the recommended one.
    pub open spec fn effective_limit(self, now: int) -> int {
        match self.admin_global {
            Some(v) => v,
            None => recommended_limit(self.accounts, self.max_inflight_per_account, now),
        }
    }

    /// The state with the limits set from the healthy accounts.
    pub open spec fn relimited(self, now: int) -> PoolView {
        PoolView {
            global_max_inflight: self.effective_limit(now),
            max_queue_size: self.effective_limit(now),
            ..self
        }
    }

    /// The places in the index agree with the accounts.
    pub open spec fn agrees(self, min_ms: int, now: int) -> bool {
        self.idx matches Some(ix) ==> ix.agrees(
            self.accounts,
            self.max_inflight_per_account,
            min_ms,
            now,
        )
    }

    /// No two accounts have one address.
    pub open spec fn distinct(self) -> bool {
        forall|i: int, j: int|
            0 <= i < self.accounts.len() && 0 <= j < self.accounts.len() && i != j
                ==> (#[trigger] self.accounts[i]).email != (#[trigger] self.accounts[j]).email
    }
}

/// A place taken by the index finds the account with the address.
pub proof fn lemma_position(p: PoolView, email: Seq<char>)
    requires
        p.wf(),
    ensures
        p.position(email) matches Some(i) ==> 0 <= i < p.accounts.len() && p.accounts[i].email
            == email,
        p.position(email) is None ==> forall|i: int|
            0 <= i < p.accounts.len() ==> (#[trigger] p.accounts[i]).email != email,
{
    if p.idx is None {
        lemma_first_exists(p.accounts, email, p.accounts.len() as int);
    }
}

proof fn lemma_first_exists(accounts: Seq<AccountView>, email: Seq<char>, n: int)
    requires
        0 <= n <= accounts.len(),
    ensures
        (exists|i: int| is_first(accounts, email, i)) || forall|i: int|
            0 <= i < n ==> (#[trigger] accounts[i]).email != email,
    decreases n,
{
    if n > 0 {
        lemma_first_exists(accounts, email, n - 1);
        if !(exists|i: int| is_first(accounts, email, i)) && accounts[n - 1].email == email {
            assert(is_first(accounts, email, n - 1));
        }
    }
}

/// The state of the pool.
pub struct PoolState {
    pub accounts: Vec<Account>,
    pub max_inflight_per_account: i64,
    pub global_max_inflight: i64,
    pub max_queue_size: i64,
    pub global_in_use: i64,
    pub admin_global: Option<i64>,
    pub sticky_email: Option<String>,
    pub use_index: bool,
    pub idx: Option<ReadyIndex>,
    pub built_gen: u64,
}

impl View for PoolState {
    type V = PoolView;

    open spec fn view(&self) -> PoolView {
        PoolView {
            accounts: self.accounts@.map_values(|a: Account| a@),
            max_inflight_per_account: self.max_inflight_per_account as int,
            global_max_inflight: self.global_max_inflight as int,
            max_queue_size: self.max_queue_size as int,
            global_in_use: self.global_in_use as int,
            admin_global: match self.admin_global {
                Some(v) => Some(v as int),
                None => None,
            },
            sticky_email: match self.sticky_email {
                Some(e) => Some(e@),
                None => None,
            },
            use_index: self.use_index,
            idx: match self.idx {
                Some(ix) => Some(ix@),
                None => None,
            },
            built_gen: self.built_gen as int,
        }
    }
}

impl PoolState {
    /// The heaps are in order and the state is well formed.
    pub open spec fn wf(&self) -> bool {
        &&& self.idx matches Some(ix) ==> ix.wf()
        &&& self@.wf()
    }

    /// Builds the index anew, where there is one.
    pub fn rebuild_index(&mut self, min_ms: u64, now: u64)
        requires
            old(self)@.use_index == (old(self)@.idx is Some),
        ensures
            final(self)@ == old(self)@.rebuilt(min_ms as int, now as int),
            final(self).wf(),
    {
        // The number of accounts fits in a machine word.
        let _count: usize = self.accounts.len();
        match self.idx.as_mut() {
            Some(ix) => {
                ix.rebuild(&self.accounts, self.max_inflight_per_account, min_ms, now);
                proof {
                    lemma_built_fits(
                        self@.accounts,
                        self.max_inflight_per_account as int,
                        min_ms as int,
                        now as int,
                    );
                }
            },
            None => {},
        }
    }

    /// Puts the account of an address in its place, where there is an index.
    pub fn reindex_email(&mut self, email: &str, min_ms: u64, now: u64)
        requires
            old(self).wf(),
        ensures
            final(self)@ == old(self)@.reindexed(email@, min_ms as int, now as int),
            final(self).wf(),
    {
        if !self.use_index {
            return;
        }
        match self.idx.as_mut() {
            Some(ix) => {
                let found: Option<usize> = match ix.pos.get(email) {
                    Some(p) => Some(*p),
                    None => None,
                };
                if let Some(p) = found {
                    let ghost ix0 = ix@;
                    ix.place(&self.accounts[p], self.max_inflight_per_account, min_ms, now);
                    proof {
                        lemma_placed_fits(
                            ix0,
                            self@.accounts,
                            p as int,
                            self.max_inflight_per_account as int,
                            min_ms as int,
                            now as int,
                        );
                    }
                }
            },
            None => {},
        }
    }

    /// Where in the list an address is found.
    pub fn account_pos(&self, email: &str) -> (r: Option<usize>)
        requires
            self.wf(),
        ensures
            r is Some == self@.position(email@) is Some,
            r matches Some(i) ==> i == self@.position(email@)->0 && i < self.accounts@.len()
                && self@.accounts[i as int].email == email@,
    {
        match self.idx.as_ref() {
            Some(ix) => match ix.pos.get(email) {
                Some(p) => Some(*p),
                None => None,
            },
            None => {
                let mut i: usize = 0;
                while i < self.accounts.len()
                    invariant
                        i <= self.accounts@.len(),
                        forall|j: int|
                            0 <= j < i ==> (#[trigger] self@.accounts[j]).email != email@,
                        self.idx is None,
                    decreases self.accounts@.len() - i,
                {
                    if str_eq(self.accounts[i].email.as_str(), email) {
                        assert(is_first(self@.accounts, email@, i as int));
                        return Some(i);
                    }
                    assert(self@.accounts[i as int].email != email@);
                    i = i + 1;
                }
                None
            },
        }
    }

    /// Sets both limits: the administrator's where there is one, else the healthy accounts
    /// times the requests that each may carry.
    pub fn reset_concurrency_limits(&mut self, now: u64)
        requires
            recommended_limit(
                old(self)@.accounts,
                old(self)@.max_inflight_per_account,
                now as int,
            ) <= i64::MAX,
        ensures
            final(self)@ == old(self)@.relimited(now as int),
            old(self).wf() ==> final(self).wf(),
            final(self).idx == old(self).idx,
            final(self).accounts == old(self).accounts,
    {
        let mut available: i64 = 0;
        let mut i: usize = 0;
        let cap: i64 = if self.max_inflight_per_account >= 1 {
            self.max_inflight_per_account
        } else {
            1
        };
        let ghost all = self@.accounts;
        assert(all.take(0) =~= Seq::empty());
        while i < self.accounts.len()
            invariant
                *self == *old(self),
                i <= self.accounts@.len(),
                all == self@.accounts,
                cap >= 1,
                cap == if self.max_inflight_per_account >= 1 {
                    self.max_inflight_per_account as int
                } else {
                    1
                },
                available == healthy_count(all.take(i as int), now as int),
                0 <= available,
                recommended_limit(all, self.max_inflight_per_account as int, now as int)
                    <= i64::MAX,
            decreases self.accounts@.len() - i,
        {
            proof {
                assert(all.take(i + 1).drop_last() =~= all.take(i as int));
                lemma_healthy_count_monotone(all, i + 1, now as int);
                let h = healthy_count(all, now as int);
                assert(h * cap >= h) by (nonlinear_arith)
                    requires
                        h >= 0,
                        cap >= 1,
                ;
            }
            if self.accounts[i].is_healthy(now) {
                available = available + 1;
            }
            i = i + 1;
        }
        assert(all.take(i as int) =~= all);
        assert(0 <= available * cap) by (nonlinear_arith)
            requires
                available >= 0,
                cap >= 1,
        ;
        let recommended: i64 = available * cap;
        let effective: i64 = match self.admin_global {
            Some(v) => v,
            None => recommended,
        };
        self.global_max_inflight = effective;
        self.max_queue_size = effective;
    }
}

proof fn lemma_healthy_count_monotone(accounts: Seq<AccountView>, n: int, now: int)
    requires
        0 <= n <= accounts.len(),
    ensures
        0 <= healthy_count(accounts.take(n), now) <= healthy_count(accounts, now),
    decreases accounts.len(),
{
    if n == accounts.len() {
        assert(accounts.take(n) =~= accounts);
        if n > 0 {
            lemma_healthy_count_monotone(accounts.drop_last(), n - 1, now);
        }
    } else {
        lemma_healthy_count_monotone(accounts.drop_last(), n, now);
        assert(accounts.drop_last().take(n) =~= accounts.take(n));
    }
}

/// An index built anew is about the accounts it was built from, and agrees with them.
pub proof fn lemma_built_fits(accounts: Seq<AccountView>, cap: int, min_ms: int, now: int)
    requires
        accounts.len() <= usize::MAX,
    ensures
        IndexView::built(accounts, cap, min_ms, now).fits(accounts),
        IndexView::built(accounts, cap, min_ms, now).loads_agree(accounts, cap),
        IndexView::built(accounts, cap, min_ms, now).agrees(accounts, cap, min_ms, now),
    decreases accounts.len(),
{
    broadcast use vstd::multiset::group_multiset_axioms;

    if accounts.len() > 0 {
        let n = accounts.len() - 1;
        let a = accounts.last();
        let shorter = accounts.drop_last();
        lemma_built_fits(shorter, cap, min_ms, now);
        let before = IndexView::built(shorter, cap, min_ms, now);
        let after = IndexView::built(accounts, cap, min_ms, now);
        assert(after.loc.dom() =~= after.pos.dom());
        lemma_mentions_grow(before.cooldown, after.cooldown);
        assert forall|e: Seq<char>| #[trigger] after.pos.contains_key(e) implies after.pos[e]
            < accounts.len() && accounts[after.pos[e] as int].email == e by {
            if e != a.email {
                assert(before.pos.contains_key(e));
                assert(shorter[before.pos[e] as int] == accounts[before.pos[e] as int]);
            }
        }
        assert forall|i: int| 0 <= i < accounts.len() implies after.pos.contains_key(
            (#[trigger] accounts[i]).email,
        ) && i <= after.pos[accounts[i].email] by {
            if i < n {
                assert(shorter[i] == accounts[i]);
            }
        }
        assert forall|e: Seq<char>| #[trigger] after.loc.contains_key(e) && after.loc[e]
            == Loc::Cooldown implies mentions(after.cooldown, e) by {
            if e == a.email {
                assert(after.cooldown.contains(cooldown_entry(a, min_ms)));
            } else {
                assert(before.loc.contains_key(e));
            }
        }
        assert forall|x: EntryView| #[trigger] after.cooldown.contains(x) implies x.rank == 0 by {
            if x != cooldown_entry(a, min_ms) {
                assert(before.cooldown.contains(x));
            }
        }
        assert forall|e: Seq<char>| #[trigger] after.pos.contains_key(e) implies after.agrees_at(
            accounts,
            cap,
            min_ms,
            now,
            e,
        ) by {
            if e != a.email {
                assert(before.pos.contains_key(e));
                assert(before.agrees_at(shorter, cap, min_ms, now, e));
                assert(before.account(shorter, e) == after.account(accounts, e));
            }
        }
        assert forall|e: Seq<char>| #[trigger]
            after.pos.contains_key(e) implies after.load_agrees_at(accounts, cap, e) by {
            assert(after.agrees_at(accounts, cap, min_ms, now, e));
        }
    } else {
        assert(IndexView::empty().loc.dom() =~= IndexView::empty().pos.dom());
    }
}

/// What a larger heap mentions includes what the smaller one does.
pub proof fn lemma_mentions_grow(a: Multiset<EntryView>, b: Multiset<EntryView>)
    requires
        forall|x: EntryView| #[trigger] a.contains(x) ==> b.contains(x),
    ensures
        forall|e: Seq<char>| #[trigger] mentions(a, e) ==> mentions(b, e),
{
    assert forall|e: Seq<char>| #[trigger] mentions(a, e) implies mentions(b, e) by {
        let x = choose|x: EntryView| #[trigger] a.contains(x) && x.email == e;
        assert(b.contains(x));
    }
}

/// Putting an account in its place keeps the index about its accounts.
pub proof fn lemma_placed_fits(
    ix: IndexView,
    accounts: Seq<AccountView>,
    i: int,
    cap: int,
    min_ms: int,
    now: int,
)
    requires
        ix.fits(accounts),
        0 <= i < accounts.len(),
        ix.pos[accounts[i].email] == i,
    ensures
        ix.placed(accounts[i], cap, min_ms, now).fits(accounts),
{
    broadcast use vstd::multiset::group_multiset_axioms;

    let a = accounts[i];
    let after = ix.placed(a, cap, min_ms, now);
    assert(ix.pos.contains_key(a.email));
    assert(after.loc.dom() =~= after.pos.dom());
    lemma_mentions_grow(ix.cooldown, after.cooldown);
    assert forall|e: Seq<char>| #[trigger] after.loc.contains_key(e) && after.loc[e]
        == Loc::Cooldown implies mentions(after.cooldown, e) by {
        if e == a.email {
            assert(after.cooldown.contains(cooldown_entry(a, min_ms)));
        } else {
            assert(ix.loc.contains_key(e));
        }
    }
    assert forall|x: EntryView| #[trigger] after.cooldown.contains(x) implies x.rank == 0 by {
        if x != cooldown_entry(a, min_ms) {
            assert(ix.cooldown.contains(x));
        }
    }
}

} // verus!
