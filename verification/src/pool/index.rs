//! The index of ready accounts.
//!
//! Each account stands in one place: ready, cooling down, or idle. The two heaps may hold
//! entries that are out of date: the place that `loc` gives is what counts, and among the ready
//! ones the load and the last use that the account has.

use vstd::hash_map::StringHashMap;
use vstd::multiset::*;
use vstd::prelude::*;

use crate::account::{Account, AccountView};
use crate::heap::{Entry, EntryHeap, EntryView};

verus! {

/// Where an account stands.
#[derive(Clone, Copy, PartialEq, Eq, Structural, Debug)]
pub enum Loc {
    /// It can take a request at once.
    Ready,
    /// It waits for the least interval to pass or for a rate limit to end.
    Cooldown,
    /// It does not work, or it carries as many requests as it may.
    Idle,
}

/// The index, as a mathematical value.
#[verifier::ext_equal]
pub struct IndexView {
    /// Where in the list of accounts an address stands.
    pub pos: Map<Seq<char>, usize>,
    /// The ready entries, least loaded first, then least recently used.
    pub ready: Multiset<EntryView>,
    /// The cooling entries, the first to become available first.
    pub cooldown: Multiset<EntryView>,
    /// The place of each address.
    pub loc: Map<Seq<char>, Loc>,
}

/// The place that an account belongs in.
pub open spec fn place_of(a: AccountView, cap: int, min_ms: int, now: int) -> Loc {
    if !a.valid || a.inflight >= cap {
        Loc::Idle
    } else if a.is_available(min_ms, now) {
        Loc::Ready
    } else {
        Loc::Cooldown
    }
}

/// The entry that puts an account among the ready ones.
pub open spec fn ready_entry(a: AccountView) -> EntryView {
    EntryView { rank: a.inflight, at: a.last_used, email: a.email }
}

/// The entry that puts an account among the cooling ones.
pub open spec fn cooldown_entry(a: AccountView, min_ms: int) -> EntryView {
    EntryView { rank: 0, at: a.next_available_at(min_ms), email: a.email }
}

/// Some entry of the heap is about this address.
pub open spec fn mentions(heap: Multiset<EntryView>, email: Seq<char>) -> bool {
    exists|x: EntryView| #[trigger] heap.contains(x) && x.email == email
}

impl IndexView {
    /// The index of no accounts.
    pub open spec fn empty() -> IndexView {
        IndexView {
            pos: Map::empty(),
            ready: Multiset::empty(),
            cooldown: Multiset::empty(),
            loc: Map::empty(),
        }
    }

    /// The index after an account has been put in its place.
    pub open spec fn placed(self, a: AccountView, cap: int, min_ms: int, now: int) -> IndexView {
        let here = place_of(a, cap, min_ms, now);
        IndexView {
            pos: self.pos,
            ready: if here == Loc::Ready {
                self.ready.insert(ready_entry(a))
            } else {
                self.ready
            },
            cooldown: if here == Loc::Cooldown {
                self.cooldown.insert(cooldown_entry(a, min_ms))
            } else {
                self.cooldown
            },
            loc: self.loc.insert(a.email, here),
        }
    }

    /// The index built anew from a list of accounts. Of two accounts with one address the
    /// later stands for it.
    pub open spec fn built(accounts: Seq<AccountView>, cap: int, min_ms: int, now: int) -> IndexView
        decreases accounts.len(),
    {
        if accounts.len() == 0 {
            IndexView::empty()
        } else {
            let a = accounts.last();
            let before = IndexView::built(accounts.drop_last(), cap, min_ms, now);
            IndexView {
                pos: before.pos.insert(a.email, (accounts.len() - 1) as usize),
                ..before
            }.placed(a, cap, min_ms, now)
        }
    }

    /// The index is about these accounts: each address leads to the last account that has it, a
    /// cooling address has an entry in the cooldown heap, and the cooling entries are ordered by
    /// time alone.
    pub open spec fn fits(self, accounts: Seq<AccountView>) -> bool {
        &&& forall|e: Seq<char>| #[trigger]
            self.pos.contains_key(e) ==> self.pos[e] < accounts.len() && accounts[self.pos[e] as int].email
                == e
        &&& forall|i: int|
            0 <= i < accounts.len() ==> self.pos.contains_key((#[trigger] accounts[i]).email) && i
                <= self.pos[accounts[i].email]
        &&& self.loc.dom() == self.pos.dom()
        &&& forall|e: Seq<char>| #[trigger]
            self.loc.contains_key(e) && self.loc[e] == Loc::Cooldown ==> mentions(self.cooldown, e)
        &&& forall|x: EntryView| #[trigger] self.cooldown.contains(x) ==> x.rank == 0
    }

    /// The account that stands for an address.
    pub open spec fn account(self, accounts: Seq<AccountView>, email: Seq<char>) -> AccountView {
        accounts[self.pos[email] as int]
    }

    /// Whatever the time, the place of an address agrees with the load of its account: it is idle
    /// exactly if it can take nothing, and if it is ready an entry says what it carries and when
    /// it was last used.
    pub open spec fn load_agrees_at(
        self,
        accounts: Seq<AccountView>,
        cap: int,
        e: Seq<char>,
    ) -> bool {
        let a = self.account(accounts, e);
        &&& self.loc[e] == Loc::Idle <==> !a.valid || a.inflight >= cap
        &&& self.loc[e] == Loc::Ready ==> self.ready.contains(ready_entry(a))
    }

    /// The places agree with the loads of the accounts.
    pub open spec fn loads_agree(self, accounts: Seq<AccountView>, cap: int) -> bool {
        forall|e: Seq<char>| #[trigger]
            self.pos.contains_key(e) ==> self.load_agrees_at(accounts, cap, e)
    }

    /// The place of an address agrees with its account as it is at `now`: it is idle exactly if
    /// it can take nothing, available if it is ready, and in either heap it has an entry that
    /// says what is the case.
    pub open spec fn agrees_at(
        self,
        accounts: Seq<AccountView>,
        cap: int,
        min_ms: int,
        now: int,
        e: Seq<char>,
    ) -> bool {
        let a = self.account(accounts, e);
        &&& self.load_agrees_at(accounts, cap, e)
        &&& self.loc[e] == Loc::Ready ==> a.is_available(min_ms, now)
        &&& self.loc[e] == Loc::Cooldown ==> self.cooldown.contains(cooldown_entry(a, min_ms))
    }

    /// The places agree with the accounts as they are at `now`.
    pub open spec fn agrees(self, accounts: Seq<AccountView>, cap: int, min_ms: int, now: int) -> bool {
        forall|e: Seq<char>| #[trigger]
            self.pos.contains_key(e) ==> self.agrees_at(accounts, cap, min_ms, now, e)
    }
}

/// The index of ready accounts.
pub struct ReadyIndex {
    pub pos: StringHashMap<usize>,
    pub ready: EntryHeap,
    pub cooldown: EntryHeap,
    pub loc: StringHashMap<Loc>,
}

impl View for ReadyIndex {
    type V = IndexView;

    open spec fn view(&self) -> IndexView {
        IndexView {
            pos: self.pos@,
            ready: self.ready@,
            cooldown: self.cooldown@,
            loc: self.loc@,
        }
    }
}

impl ReadyIndex {
    /// Both heaps are in order.
    pub open spec fn wf(&self) -> bool {
        self.ready.wf() && self.cooldown.wf()
    }

    /// The index of no accounts.
    pub fn new() -> (r: Self)
        ensures
            r.wf(),
            r@ == IndexView::empty(),
    {
        ReadyIndex {
            pos: StringHashMap::new(),
            ready: EntryHeap::new(),
            cooldown: EntryHeap::new(),
            loc: StringHashMap::new(),
        }
    }

    /// Puts an account in its place.
    pub fn place(&mut self, acc: &Account, cap: i64, min_ms: u64, now: u64)
        requires
            old(self).wf(),
        ensures
            final(self).wf(),
            final(self)@ == old(self)@.placed(acc@, cap as int, min_ms as int, now as int),
    {
        let here = if !acc.valid || acc.inflight >= cap {
            Loc::Idle
        } else if acc.is_available(min_ms, now) {
            self.ready.push(
                Entry { rank: acc.inflight, at: acc.last_used, email: acc.email.clone() },
            );
            Loc::Ready
        } else {
            let at: u128 = acc.next_available_at(min_ms);
            self.cooldown.push(Entry { rank: 0, at, email: acc.email.clone() });
            Loc::Cooldown
        };
        self.loc.insert(acc.email.clone(), here);
    }

    /// Builds the index anew.
    pub fn rebuild(&mut self, accounts: &Vec<Account>, cap: i64, min_ms: u64, now: u64)
        ensures
            final(self).wf(),
            final(self)@ == IndexView::built(
                accounts@.map_values(|a: Account| a@),
                cap as int,
                min_ms as int,
                now as int,
            ),
    {
        self.pos.clear();
        self.ready.clear();
        self.cooldown.clear();
        self.loc.clear();
        let ghost all = accounts@.map_values(|a: Account| a@);
        let mut i: usize = 0;
        proof {
            assert(all.take(0) =~= Seq::empty());
        }
        while i < accounts.len()
            invariant
                i <= accounts@.len(),
                all == accounts@.map_values(|a: Account| a@),
                self.wf(),
                self@ == IndexView::built(
                    all.take(i as int),
                    cap as int,
                    min_ms as int,
                    now as int,
                ),
            decreases accounts@.len() - i,
        {
            let acc = &accounts[i];
            proof {
                assert(all.take(i + 1).drop_last() =~= all.take(i as int));
                assert(all.take(i + 1).last() == acc@);
            }
            self.pos.insert(acc.email.clone(), i);
            self.place(acc, cap, min_ms, now);
            i = i + 1;
        }
        assert(all.take(i as int) =~= all);
    }
}

} // verus!
