//! Which of the ready accounts is taken.

use vstd::multiset::*;
use vstd::prelude::*;
use vstd::string::*;

use super::index::{ready_entry, IndexView, Loc, ReadyIndex};
use crate::account::{Account, AccountView};
use crate::email_set::EmailSet;
use crate::heap::{entry_le, entry_lt, lemma_entry_total, Entry, EntryView};
use crate::text::opt_str_view;

verus! {

impl IndexView {
    /// The entry is out of date: its account is not ready, or the entry does not say what the
    /// account carries and when it was last used.
    pub open spec fn stale(self, accounts: Seq<AccountView>, x: EntryView) -> bool {
        !(self.loc.contains_key(x.email) && self.loc[x.email] == Loc::Ready && x == ready_entry(
            self.account(accounts, x.email),
        ))
    }

    /// The entry is one that may be taken.
    pub open spec fn selectable(
        self,
        accounts: Seq<AccountView>,
        x: EntryView,
        exclude: Set<Seq<char>>,
    ) -> bool {
        self.ready.contains(x) && !self.stale(accounts, x) && !exclude.contains(x.email)
    }

    /// Of the entries that may be taken this one comes first.
    pub open spec fn is_best(
        self,
        accounts: Seq<AccountView>,
        x: EntryView,
        exclude: Set<Seq<char>>,
    ) -> bool {
        &&& self.selectable(accounts, x, exclude)
        &&& forall|y: EntryView| #[trigger]
            self.selectable(accounts, y, exclude) ==> entry_le(x, y)
    }

    /// The preferred address is there, ready and not excluded.
    pub open spec fn prefers(self, preferred: Option<Seq<char>>, exclude: Set<Seq<char>>) -> bool {
        preferred matches Some(e) && self.loc.contains_key(e) && self.loc[e] == Loc::Ready
            && !exclude.contains(e)
    }

    /// The address that is taken: the preferred one where it can be, else that of the first
    /// entry that may be taken.
    pub open spec fn choice(
        self,
        accounts: Seq<AccountView>,
        preferred: Option<Seq<char>>,
        exclude: Set<Seq<char>>,
    ) -> Option<Seq<char>> {
        if self.prefers(preferred, exclude) {
            preferred
        } else if exists|x: EntryView| self.is_best(accounts, x, exclude) {
            Some((choose|x: EntryView| self.is_best(accounts, x, exclude)).email)
        } else {
            None
        }
    }

    /// The index after the choice: the entry that was taken has left, and with it the stale
    /// ones that came before.
    pub open spec fn picked(
        self,
        accounts: Seq<AccountView>,
        preferred: Option<Seq<char>>,
        exclude: Set<Seq<char>>,
    ) -> IndexView {
        let left = if self.prefers(preferred, exclude) {
            self.ready
        } else if exists|x: EntryView| self.is_best(accounts, x, exclude) {
            let c = choose|x: EntryView| self.is_best(accounts, x, exclude);
            self.ready.filter(|x: EntryView| !(self.stale(accounts, x) && entry_lt(x, c))).remove(c)
        } else {
            self.ready.filter(|x: EntryView| !self.stale(accounts, x))
        };
        IndexView { ready: left, ..self }
    }
}

/// At most one entry comes first.
pub proof fn lemma_best_unique(
    ix: IndexView,
    accounts: Seq<AccountView>,
    a: EntryView,
    b: EntryView,
    exclude: Set<Seq<char>>,
)
    requires
        ix.is_best(accounts, a, exclude),
        ix.is_best(accounts, b, exclude),
    ensures
        a == b,
{
    lemma_entry_total(a, b);
}

spec fn held_views(held: Seq<Entry>) -> Seq<EntryView> {
    held.map_values(|e: Entry| e@)
}

/// Some of the ready entries have been looked at, in order: the stale ones were dropped, the
/// excluded ones are held.
spec fn looked_at(
    ix: IndexView,
    accounts: Seq<AccountView>,
    exclude: Set<Seq<char>>,
    rest: Multiset<EntryView>,
    held: Multiset<EntryView>,
    dropped: Multiset<EntryView>,
) -> bool {
    &&& ix.ready == rest.add(held).add(dropped)
    &&& forall|x: EntryView| #[trigger] dropped.contains(x) ==> ix.stale(accounts, x)
    &&& forall|x: EntryView| #[trigger]
        held.contains(x) ==> !ix.stale(accounts, x) && exclude.contains(x.email)
    &&& forall|x: EntryView, y: EntryView| #[trigger]
        dropped.contains(x) && #[trigger] rest.contains(y) ==> entry_le(x, y)
}

proof fn lemma_found(
    ix: IndexView,
    accounts: Seq<AccountView>,
    exclude: Set<Seq<char>>,
    e: EntryView,
    rest: Multiset<EntryView>,
    held: Multiset<EntryView>,
    dropped: Multiset<EntryView>,
)
    requires
        looked_at(ix, accounts, exclude, rest, held, dropped),
        rest.contains(e),
        forall|x: EntryView| rest.contains(x) ==> entry_le(e, x),
        !ix.stale(accounts, e),
        !exclude.contains(e.email),
    ensures
        ix.is_best(accounts, e, exclude),
        rest.remove(e).add(held) == ix.ready.filter(
            |x: EntryView| !(ix.stale(accounts, x) && entry_lt(x, e)),
        ).remove(e),
{
    broadcast use vstd::multiset::group_multiset_axioms;

    assert(ix.ready.contains(e));
    assert forall|y: EntryView| #[trigger] ix.selectable(accounts, y, exclude) implies entry_le(e, y) by {
        assert(!dropped.contains(y));
        assert(!held.contains(y));
        assert(rest.contains(y));
    }
    let keep = |x: EntryView| !(ix.stale(accounts, x) && entry_lt(x, e));
    assert(rest.remove(e).add(held) =~= ix.ready.filter(keep).remove(e)) by {
        assert forall|x: EntryView| rest.remove(e).add(held).count(x) == ix.ready.filter(
            keep,
        ).remove(e).count(x) by {
            lemma_entry_total(x, e);
            if dropped.count(x) > 0 {
                assert(dropped.contains(x));
                assert(!rest.contains(x)) by {
                    if rest.contains(x) {
                        assert(entry_le(e, x));
                    }
                }
                assert(!held.contains(x));
            } else if ix.stale(accounts, x) {
                assert(!held.contains(x));
                if rest.count(x) > 0 {
                    assert(rest.contains(x));
                }
            }
        }
    }
}

proof fn lemma_none_left(
    ix: IndexView,
    accounts: Seq<AccountView>,
    exclude: Set<Seq<char>>,
    held: Multiset<EntryView>,
    dropped: Multiset<EntryView>,
)
    requires
        looked_at(ix, accounts, exclude, Multiset::empty(), held, dropped),
    ensures
        forall|x: EntryView| !ix.is_best(accounts, x, exclude),
        held == ix.ready.filter(|x: EntryView| !ix.stale(accounts, x)),
{
    broadcast use vstd::multiset::group_multiset_axioms;

    assert forall|x: EntryView| !ix.is_best(accounts, x, exclude) by {
        if ix.selectable(accounts, x, exclude) {
            assert(!dropped.contains(x));
            assert(!held.contains(x));
        }
    }
    let keep = |x: EntryView| !ix.stale(accounts, x);
    assert(held =~= ix.ready.filter(keep)) by {
        assert forall|x: EntryView| held.count(x) == ix.ready.filter(keep).count(x) by {
            if dropped.count(x) > 0 {
                assert(dropped.contains(x));
                assert(!held.contains(x));
            }
            if held.count(x) > 0 {
                assert(held.contains(x));
            }
        }
    }
}

impl ReadyIndex {
    /// Whether an address is ready.
    fn is_ready(&self, email: &str) -> (r: bool)
        ensures
            r == (self@.loc.contains_key(email@) && self@.loc[email@] == Loc::Ready),
    {
        match self.loc.get(email) {
            Some(l) => *l == Loc::Ready,
            None => false,
        }
    }

    /// Whether an entry is out of date.
    fn is_stale(&self, accounts: &Vec<Account>, e: &Entry) -> (r: bool)
        requires
            self@.fits(accounts@.map_values(|a: Account| a@)),
        ensures
            r == self@.stale(accounts@.map_values(|a: Account| a@), e@),
    {
        if !self.is_ready(e.email.as_str()) {
            return true;
        }
        match self.pos.get(e.email.as_str()) {
            Some(p) => {
                let acc = &accounts[*p];
                acc.inflight != e.rank || acc.last_used != e.at
            },
            None => {
                assert(self@.loc.contains_key(e@.email));
                true
            },
        }
    }

    /// Takes the address that is to serve next out of the ready heap. An entry that is
    /// excluded stays where it is.
    pub fn select(
        &mut self,
        accounts: &Vec<Account>,
        preferred: Option<&str>,
        exclude: &EmailSet,
    ) -> (r: Option<String>)
        requires
            old(self).wf(),
            old(self)@.fits(accounts@.map_values(|a: Account| a@)),
        ensures
            final(self).wf(),
            final(self)@ == old(self)@.picked(
                accounts@.map_values(|a: Account| a@),
                opt_str_view(preferred),
                exclude@,
            ),
            match r {
                Some(e) => old(self)@.choice(
                    accounts@.map_values(|a: Account| a@),
                    opt_str_view(preferred),
                    exclude@,
                ) == Some(e@),
                None => old(self)@.choice(
                    accounts@.map_values(|a: Account| a@),
                    opt_str_view(preferred),
                    exclude@,
                ) is None,
            },
    {
        let ghost all = accounts@.map_values(|a: Account| a@);
        let ghost ix = self@;
        let ghost want = opt_str_view(preferred);
        if let Some(pe) = preferred {
            if self.is_ready(pe) && !exclude.contains(pe) {
                return Some(String::from_str(pe));
            }
        }
        assert(!ix.prefers(want, exclude@));
        let mut held: Vec<Entry> = Vec::new();
        let mut chosen: Option<String> = None;
        let ghost mut dropped = Multiset::<EntryView>::empty();
        let ghost mut goal = Multiset::<EntryView>::empty();
        proof {
            broadcast use vstd::multiset::group_multiset_axioms;

            held_views(held@).to_multiset_ensures();
            assert(held_views(held@).to_multiset() =~= Multiset::empty());
            assert(ix.ready =~= ix.ready.add(Multiset::empty()).add(Multiset::empty()));
        }
        loop
            invariant_except_break
                looked_at(
                    ix,
                    all,
                    exclude@,
                    self@.ready,
                    held_views(held@).to_multiset(),
                    dropped,
                ),
                chosen is None,
            invariant
                self.wf(),
                all == accounts@.map_values(|a: Account| a@),
                ix.fits(all),
                self@ == (IndexView { ready: self@.ready, ..ix }),
                !ix.prefers(want, exclude@),
            ensures
                self.wf(),
                self@ == (IndexView { ready: self@.ready, ..ix }),
                goal == self@.ready.add(held_views(held@).to_multiset()),
                goal == ix.picked(all, want, exclude@).ready,
                match chosen {
                    Some(e) => ix.choice(all, want, exclude@) == Some(e@),
                    None => ix.choice(all, want, exclude@) is None,
                },
            decreases self@.ready.len(),
        {
            let ghost rest = self@.ready;
            let ghost h0 = held_views(held@);
            match self.ready.pop() {
                None => {
                    proof {
                        broadcast use vstd::multiset::group_multiset_axioms;

                        assert(rest =~= Multiset::empty());
                        lemma_none_left(ix, all, exclude@, h0.to_multiset(), dropped);
                        goal = h0.to_multiset();
                        assert(goal =~= self@.ready.add(h0.to_multiset()));
                    }
                    break;
                },
                Some(e) => {
                    let ghost ev = e@;
                    proof {
                        broadcast use vstd::multiset::group_multiset_axioms;

                        h0.to_multiset_ensures();
                        assert(rest =~= rest.remove(ev).insert(ev));
                    }
                    if self.is_stale(accounts, &e) {
                        proof {
                            broadcast use vstd::multiset::group_multiset_axioms;

                            let more = dropped.insert(ev);
                            assert(ix.ready =~= rest.remove(ev).add(h0.to_multiset()).add(more));
                            assert forall|x: EntryView, y: EntryView| #[trigger]
                                more.contains(x) && #[trigger] rest.remove(ev).contains(
                                    y,
                                ) implies entry_le(x, y) by {
                                assert(rest.contains(y));
                                if x != ev {
                                    assert(dropped.contains(x));
                                }
                            }
                            assert forall|x: EntryView| #[trigger] more.contains(
                                x,
                            ) implies ix.stale(all, x) by {
                                if x != ev {
                                    assert(dropped.contains(x));
                                }
                            }
                            dropped = more;
                        }
                    } else if exclude.contains(e.email.as_str()) {
                        held.push(e);
                        proof {
                            broadcast use vstd::multiset::group_multiset_axioms;

                            let h1 = h0.to_multiset().insert(ev);
                            assert(held_views(held@) =~= h0.push(ev));
                            assert(ix.ready =~= rest.remove(ev).add(h1).add(dropped));
                            assert forall|x: EntryView, y: EntryView| #[trigger]
                                dropped.contains(x) && #[trigger] rest.remove(ev).contains(
                                    y,
                                ) implies entry_le(x, y) by {
                                assert(rest.contains(y));
                            }
                            assert forall|x: EntryView| #[trigger] h1.contains(x) implies !ix.stale(
                                all,
                                x,
                            ) && exclude@.contains(x.email) by {
                                if x != ev {
                                    assert(h0.to_multiset().contains(x));
                                }
                            }
                        }
                    } else {
                        proof {
                            lemma_found(ix, all, exclude@, ev, rest, h0.to_multiset(), dropped);
                            let c = choose|x: EntryView| ix.is_best(all, x, exclude@);
                            lemma_best_unique(ix, all, c, ev, exclude@);
                            goal = rest.remove(ev).add(h0.to_multiset());
                        }
                        chosen = Some(e.email);
                        break;
                    }
                },
            }
        }
        while held.len() > 0
            invariant
                self.wf(),
                self@ == (IndexView { ready: self@.ready, ..ix }),
                goal == self@.ready.add(held_views(held@).to_multiset()),
            decreases held@.len(),
        {
            let ghost h0 = held_views(held@);
            let ghost r0 = self@.ready;
            if let Some(h) = held.pop() {
                let ghost hv = h@;
                self.ready.push(h);
                proof {
                    broadcast use vstd::multiset::group_multiset_axioms;

                    let h1 = held_views(held@);
                    assert(h0 =~= h1.push(hv));
                    h1.to_multiset_ensures();
                    assert(goal =~= r0.insert(hv).add(h1.to_multiset()));
                }
            }
        }
        proof {
            broadcast use vstd::multiset::group_multiset_axioms;

            held_views(held@).to_multiset_ensures();
            assert(self@.ready =~= goal);
        }
        chosen
    }
}

} // verus!
