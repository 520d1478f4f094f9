//! Moving accounts out of the cooldown heap when their time has come.

use vstd::multiset::*;
use vstd::prelude::*;

use super::index::{cooldown_entry, mentions, place_of, ready_entry, IndexView, Loc, ReadyIndex};
use crate::account::{Account, AccountView};
use crate::heap::EntryView;

verus! {

/// The cooldown entries whose time has come.
pub open spec fn due(cooldown: Multiset<EntryView>, now: int) -> Multiset<EntryView> {
    cooldown.filter(|x: EntryView| x.at <= now)
}

impl IndexView {
    /// The address cools down and one of the entries in `taken` is about it.
    pub open spec fn touched(self, taken: Multiset<EntryView>, e: Seq<char>) -> bool {
        self.loc.contains_key(e) && self.loc[e] == Loc::Cooldown && mentions(taken, e)
    }

    /// The ready entries of the touched accounts that belong among the ready ones.
    pub open spec fn promoted(
        self,
        taken: Multiset<EntryView>,
        accounts: Seq<AccountView>,
        cap: int,
        min_ms: int,
        now: int,
    ) -> Set<EntryView> {
        Set::new(
            |x: EntryView|
                {
                    let a = self.account(accounts, x.email);
                    &&& self.touched(taken, x.email)
                    &&& place_of(a, cap, min_ms, now) == Loc::Ready
                    &&& x == ready_entry(a)
                },
        )
    }

    /// The cooldown entries of the touched accounts that still have to wait, with how many
    /// entries were taken for each.
    pub open spec fn kept_cooling(
        self,
        taken: Multiset<EntryView>,
        accounts: Seq<AccountView>,
        cap: int,
        min_ms: int,
        now: int,
    ) -> Map<EntryView, nat> {
        Map::new(
            |x: EntryView|
                {
                    let a = self.account(accounts, x.email);
                    &&& self.touched(taken, x.email)
                    &&& place_of(a, cap, min_ms, now) == Loc::Cooldown
                    &&& x == cooldown_entry(a, min_ms)
                },
            |x: EntryView| taken.filter(|y: EntryView| y.email == x.email).len(),
        )
    }

    /// The index after the entries in `taken` have left the cooldown heap: each account that
    /// they are about, and that cools down, goes where it belongs now.
    pub open spec fn without(
        self,
        taken: Multiset<EntryView>,
        accounts: Seq<AccountView>,
        cap: int,
        min_ms: int,
        now: int,
    ) -> IndexView {
        IndexView {
            pos: self.pos,
            ready: self.ready.add(
                Multiset::from_set(self.promoted(taken, accounts, cap, min_ms, now)),
            ),
            cooldown: self.cooldown.sub(taken).add(
                Multiset::from_map(self.kept_cooling(taken, accounts, cap, min_ms, now)),
            ),
            loc: Map::new(
                |e: Seq<char>| self.loc.contains_key(e),
                |e: Seq<char>|
                    if self.touched(taken, e) {
                        place_of(self.account(accounts, e), cap, min_ms, now)
                    } else {
                        self.loc[e]
                    },
            ),
        }
    }

    /// The index after every account whose time has come has gone where it belongs.
    pub open spec fn warmed(
        self,
        accounts: Seq<AccountView>,
        cap: int,
        min_ms: int,
        now: int,
    ) -> IndexView {
        self.without(due(self.cooldown, now), accounts, cap, min_ms, now)
    }
}

/// Both additions are finite.
proof fn lemma_finite(
    ix: IndexView,
    taken: Multiset<EntryView>,
    accounts: Seq<AccountView>,
    cap: int,
    min_ms: int,
    now: int,
)
    ensures
        ix.promoted(taken, accounts, cap, min_ms, now).finite(),
        ix.kept_cooling(taken, accounts, cap, min_ms, now).dom().finite(),
{
    broadcast use vstd::multiset::group_multiset_axioms;

    let f = |x: EntryView| ready_entry(ix.account(accounts, x.email));
    let g = |x: EntryView| cooldown_entry(ix.account(accounts, x.email), min_ms);
    let d = taken.dom();
    d.lemma_map_finite(f);
    d.lemma_map_finite(g);
    let p = ix.promoted(taken, accounts, cap, min_ms, now);
    assert(p.subset_of(d.map(f))) by {
        assert forall|x: EntryView| p.contains(x) implies d.map(f).contains(x) by {
            let y = choose|y: EntryView| #[trigger] taken.contains(y) && y.email == x.email;
            assert(d.contains(y) && f(y) == x);
        }
    }
    vstd::set_lib::lemma_set_subset_finite(d.map(f), p);
    let k = ix.kept_cooling(taken, accounts, cap, min_ms, now).dom();
    assert(k.subset_of(d.map(g))) by {
        assert forall|x: EntryView| k.contains(x) implies d.map(g).contains(x) by {
            let y = choose|y: EntryView| #[trigger] taken.contains(y) && y.email == x.email;
            assert(d.contains(y) && g(y) == x);
        }
    }
    vstd::set_lib::lemma_set_subset_finite(d.map(g), k);
}

/// How often each entry occurs after `taken` has left.
proof fn lemma_counts(
    ix: IndexView,
    taken: Multiset<EntryView>,
    accounts: Seq<AccountView>,
    cap: int,
    min_ms: int,
    now: int,
)
    ensures
        ({
            let after = ix.without(taken, accounts, cap, min_ms, now);
            let promoted = ix.promoted(taken, accounts, cap, min_ms, now);
            let kept = ix.kept_cooling(taken, accounts, cap, min_ms, now);
            &&& forall|x: EntryView| #[trigger]
                after.ready.count(x) == ix.ready.count(x) + if promoted.contains(x) {
                    1nat
                } else {
                    0nat
                }
            &&& forall|x: EntryView| #[trigger]
                after.cooldown.count(x) == ix.cooldown.sub(taken).count(x) + if kept.contains_key(
                    x,
                ) {
                    taken.filter(|y: EntryView| y.email == x.email).len()
                } else {
                    0nat
                }
        }),
{
    broadcast use vstd::multiset::group_multiset_axioms;

    lemma_finite(ix, taken, accounts, cap, min_ms, now);
    let p = ix.promoted(taken, accounts, cap, min_ms, now);
    assert(Map::<EntryView, nat>::new(|k: EntryView| p.contains(k), |v: EntryView| 1nat).dom()
        =~= p);
}

proof fn lemma_filter_insert(taken: Multiset<EntryView>, e: EntryView, k: Seq<char>)
    ensures
        taken.insert(e).filter(|y: EntryView| y.email == k).len() == taken.filter(
            |y: EntryView| y.email == k,
        ).len() + if e.email == k {
            1nat
        } else {
            0nat
        },
        mentions(taken.insert(e), k) <==> mentions(taken, k) || e.email == k,
{
    broadcast use vstd::multiset::group_multiset_axioms;

    let p = |y: EntryView| y.email == k;
    if e.email == k {
        assert(taken.insert(e).filter(p) =~= taken.filter(p).insert(e));
        assert(taken.insert(e).contains(e));
    } else {
        assert(taken.insert(e).filter(p) =~= taken.filter(p));
        if mentions(taken.insert(e), k) {
            let x = choose|x: EntryView| #[trigger] taken.insert(e).contains(x) && x.email == k;
            assert(taken.contains(x));
        }
    }
    if mentions(taken, k) {
        let x = choose|x: EntryView| #[trigger] taken.contains(x) && x.email == k;
        assert(taken.insert(e).contains(x));
    }
}

/// Nothing mentioned, nothing counted.
proof fn lemma_unmentioned(taken: Multiset<EntryView>, k: Seq<char>)
    requires
        !mentions(taken, k),
    ensures
        taken.filter(|y: EntryView| y.email == k).len() == 0,
{
    broadcast use vstd::multiset::group_multiset_axioms;

    let p = |y: EntryView| y.email == k;
    assert(taken.filter(p) =~= Multiset::empty()) by {
        assert forall|x: EntryView| taken.filter(p).count(x) == 0 by {
            if taken.filter(p).count(x) > 0 {
                assert(taken.contains(x) && x.email == k);
            }
        }
    }
}

/// Taking nothing changes nothing.
proof fn lemma_without_nothing(
    ix: IndexView,
    accounts: Seq<AccountView>,
    cap: int,
    min_ms: int,
    now: int,
)
    ensures
        ix.without(Multiset::empty(), accounts, cap, min_ms, now) == ix,
{
    broadcast use vstd::multiset::group_multiset_axioms;

    let none = Multiset::<EntryView>::empty();
    let r = ix.without(none, accounts, cap, min_ms, now);
    lemma_counts(ix, none, accounts, cap, min_ms, now);
    assert forall|e: Seq<char>| !mentions(none, e) by {}
    assert(r.ready =~= ix.ready);
    assert(r.cooldown =~= ix.cooldown);
    assert(r.loc =~= ix.loc);
}

/// One more entry leaves: the account it is about is put in its place if it cools down.
proof fn lemma_take_one(
    ix: IndexView,
    taken: Multiset<EntryView>,
    e: EntryView,
    accounts: Seq<AccountView>,
    cap: int,
    min_ms: int,
    now: int,
)
    requires
        ix.fits(accounts),
        taken.subset_of(ix.cooldown),
        taken.count(e) < ix.cooldown.count(e),
        e.at <= now,
    ensures
        ({
            let cur = ix.without(taken, accounts, cap, min_ms, now);
            let rest = IndexView { cooldown: cur.cooldown.remove(e), ..cur };
            let next = ix.without(taken.insert(e), accounts, cap, min_ms, now);
            if cur.loc.contains_key(e.email) && cur.loc[e.email] == Loc::Cooldown {
                next == rest.placed(ix.account(accounts, e.email), cap, min_ms, now)
            } else {
                next == rest
            }
        }),
{
    broadcast use vstd::multiset::group_multiset_axioms;

    let more = taken.insert(e);
    let cur = ix.without(taken, accounts, cap, min_ms, now);
    let rest = IndexView { cooldown: cur.cooldown.remove(e), ..cur };
    let next = ix.without(more, accounts, cap, min_ms, now);
    let a = ix.account(accounts, e.email);
    let moved = cur.loc.contains_key(e.email) && cur.loc[e.email] == Loc::Cooldown;
    let goal = if moved {
        rest.placed(a, cap, min_ms, now)
    } else {
        rest
    };
    lemma_counts(ix, taken, accounts, cap, min_ms, now);
    lemma_counts(ix, more, accounts, cap, min_ms, now);
    assert forall|k: Seq<char>| mentions(more, k) <==> mentions(taken, k) || e.email == k by {
        lemma_filter_insert(taken, e, k);
    }
    if moved {
        assert(ix.pos.contains_key(e.email));
        assert(a.email == e.email);
    }
    assert(next.loc =~= goal.loc) by {
        assert forall|k: Seq<char>| #[trigger] next.loc.contains_key(k) implies next.loc[k]
            == goal.loc[k] by {
            if k == e.email && !moved {
                assert(ix.loc[k] != Loc::Cooldown || mentions(taken, k));
            }
        }
        if moved {
            assert(goal.loc.dom() =~= next.loc.dom());
        }
    }
    let kept = ix.kept_cooling(taken, accounts, cap, min_ms, now);
    let kept2 = ix.kept_cooling(more, accounts, cap, min_ms, now);
    assert(next.ready =~= goal.ready) by {
        assert forall|x: EntryView| next.ready.count(x) == goal.ready.count(x) by {
            let p1 = ix.promoted(taken, accounts, cap, min_ms, now);
            let p2 = ix.promoted(more, accounts, cap, min_ms, now);
            if x.email != e.email {
                assert(p1.contains(x) == p2.contains(x));
            } else if !moved {
                assert(p1.contains(x) == p2.contains(x));
            } else {
                assert(!p1.contains(x));
            }
        }
    }
    assert(next.cooldown =~= goal.cooldown) by {
        assert forall|x: EntryView| next.cooldown.count(x) == goal.cooldown.count(x) by {
            lemma_filter_insert(taken, e, x.email);
            assert(kept.contains_key(x) ==> x.at > now);
            assert(kept2.contains_key(x) ==> x.at > now);
            if x.email != e.email {
                assert(kept.contains_key(x) == kept2.contains_key(x));
            } else if !moved {
                assert(!kept.contains_key(x) && !kept2.contains_key(x));
            } else {
                assert(kept2.contains_key(x) <==> place_of(a, cap, min_ms, now) == Loc::Cooldown
                    && x == cooldown_entry(a, min_ms));
                if kept2.contains_key(x) && !kept.contains_key(x) {
                    assert(!mentions(taken, x.email));
                    lemma_unmentioned(taken, x.email);
                }
            }
        }
    }
}

impl ReadyIndex {
    /// Puts every account whose time has come where it belongs now.
    pub fn warm(&mut self, accounts: &Vec<Account>, cap: i64, min_ms: u64, now: u64)
        requires
            old(self).wf(),
            old(self)@.fits(accounts@.map_values(|a: Account| a@)),
        ensures
            final(self).wf(),
            final(self)@ == old(self)@.warmed(
                accounts@.map_values(|a: Account| a@),
                cap as int,
                min_ms as int,
                now as int,
            ),
    {
        let ghost ix = self@;
        let ghost all = accounts@.map_values(|a: Account| a@);
        let ghost mut taken = Multiset::<EntryView>::empty();
        proof {
            broadcast use vstd::multiset::group_multiset_axioms;

            lemma_without_nothing(ix, all, cap as int, min_ms as int, now as int);
        }
        loop
            invariant
                all == accounts@.map_values(|a: Account| a@),
                ix.fits(all),
                self.wf(),
                self@ == ix.without(taken, all, cap as int, min_ms as int, now as int),
                taken.subset_of(ix.cooldown),
                forall|x: EntryView| #[trigger] taken.contains(x) ==> x.at <= now,
            ensures
                self.wf(),
                self@ == ix.warmed(all, cap as int, min_ms as int, now as int),
            decreases ix.cooldown.len() - taken.len(),
        {
            let ghost cur = self@;
            proof {
                broadcast use vstd::multiset::group_multiset_axioms;

                lemma_counts(ix, taken, all, cap as int, min_ms as int, now as int);
                assert forall|x: EntryView| #[trigger] cur.cooldown.contains(x) implies x.rank
                    == 0 by {
                    if ix.cooldown.sub(taken).count(x) > 0 {
                        assert(ix.cooldown.contains(x));
                    }
                }
            }
            let ghost mut top: EntryView = arbitrary();
            let ready_now = match self.cooldown.peek() {
                Some(e) => {
                    proof {
                        assert(cur.cooldown.contains(e@));
                        top = e@;
                    }
                    e.at <= now as u128
                },
                None => false,
            };
            if !ready_now {
                proof {
                    broadcast use vstd::multiset::group_multiset_axioms;

                    assert(taken =~= due(ix.cooldown, now as int)) by {
                        assert forall|x: EntryView| taken.count(x) == due(
                            ix.cooldown,
                            now as int,
                        ).count(x) by {
                            if x.at <= now && taken.count(x) < ix.cooldown.count(x) {
                                assert(cur.cooldown.contains(x));
                            }
                            if x.at > now {
                                assert(!taken.contains(x));
                            }
                        }
                    }
                }
                break;
            }
            match self.cooldown.pop() {
                Some(e) => {
                    let ghost ev = e@;
                    proof {
                        broadcast use vstd::multiset::group_multiset_axioms;

                        assert(crate::heap::entry_le(ev, top));
                        assert(ev.at <= now);
                        assert(!ix.kept_cooling(
                            taken,
                            all,
                            cap as int,
                            min_ms as int,
                            now as int,
                        ).contains_key(ev));
                        assert(taken.count(ev) < ix.cooldown.count(ev));
                        lemma_take_one(
                            ix,
                            taken,
                            ev,
                            all,
                            cap as int,
                            min_ms as int,
                            now as int,
                        );
                    }
                    let cooling = match self.loc.get(e.email.as_str()) {
                        Some(l) => *l == Loc::Cooldown,
                        None => false,
                    };
                    if cooling {
                        let found: Option<usize> = match self.pos.get(e.email.as_str()) {
                            Some(p) => Some(*p),
                            None => None,
                        };
                        match found {
                            Some(p) => {
                                assert(all[p as int] == ix.account(all, ev.email));
                                self.place(&accounts[p], cap, min_ms, now);
                            },
                            None => {
                                assert(ix.loc.contains_key(ev.email));
                                assert(false);
                            },
                        }
                    }
                    proof {
                        broadcast use vstd::multiset::group_multiset_axioms;

                        assert forall|x: EntryView| #[trigger]
                            taken.insert(ev).contains(x) implies x.at <= now by {
                            if x != ev {
                                assert(taken.contains(x));
                            }
                        }
                        assert(taken.insert(ev).subset_of(ix.cooldown));
                        lemma_subset_len(taken.insert(ev), ix.cooldown);
                        taken = taken.insert(ev);
                    }
                },
                None => {
                    assert(false);
                },
            }
        }
    }
}

proof fn lemma_subset_len(a: Multiset<EntryView>, b: Multiset<EntryView>)
    requires
        a.subset_of(b),
    ensures
        a.len() <= b.len(),
{
    broadcast use vstd::multiset::group_multiset_axioms;

    assert(b =~= a.add(b.sub(a)));
}

/// After warming, the index is still about its accounts. If the places agreed with the
/// accounts, each account now stands exactly where it belongs.
pub proof fn lemma_warmed(
    ix: IndexView,
    accounts: Seq<AccountView>,
    cap: int,
    min_ms: int,
    now: int,
)
    requires
        ix.fits(accounts),
    ensures
        ix.warmed(accounts, cap, min_ms, now).fits(accounts),
        ix.loads_agree(accounts, cap) ==> ix.warmed(accounts, cap, min_ms, now).loads_agree(
            accounts,
            cap,
        ),
        ix.agrees(accounts, cap, min_ms, now) ==> {
            let w = ix.warmed(accounts, cap, min_ms, now);
            &&& w.agrees(accounts, cap, min_ms, now)
            &&& forall|e: Seq<char>| #[trigger]
                w.pos.contains_key(e) ==> w.loc[e] == place_of(
                    w.account(accounts, e),
                    cap,
                    min_ms,
                    now,
                )
        },
{
    broadcast use vstd::multiset::group_multiset_axioms;

    let taken = due(ix.cooldown, now);
    let w = ix.warmed(accounts, cap, min_ms, now);
    lemma_counts(ix, taken, accounts, cap, min_ms, now);
    assert(w.loc.dom() =~= w.pos.dom());
    assert forall|e: Seq<char>| #[trigger] w.loc.contains_key(e) && w.loc[e]
        == Loc::Cooldown implies mentions(w.cooldown, e) by {
        let a = ix.account(accounts, e);
        if ix.touched(taken, e) {
            assert(ix.pos.contains_key(e) && a.email == e);
            lemma_kept(ix, accounts, cap, min_ms, now, e);
        } else {
            assert(ix.loc.contains_key(e));
            let x = choose|x: EntryView| #[trigger] ix.cooldown.contains(x) && x.email == e;
            assert(!taken.contains(x));
            assert(w.cooldown.contains(x));
        }
    }
    assert forall|x: EntryView| #[trigger] w.cooldown.contains(x) implies x.rank == 0 by {
        if ix.cooldown.sub(taken).count(x) > 0 {
            assert(ix.cooldown.contains(x));
        }
    }
    if ix.loads_agree(accounts, cap) {
        assert forall|e: Seq<char>| #[trigger] w.pos.contains_key(e) implies w.load_agrees_at(
            accounts,
            cap,
            e,
        ) by {
            let a = w.account(accounts, e);
            assert(ix.pos.contains_key(e) && ix.loc.contains_key(e));
            assert(ix.load_agrees_at(accounts, cap, e));
            assert(a.email == e);
            if w.loc[e] == Loc::Ready {
                if ix.touched(taken, e) {
                    assert(ix.promoted(taken, accounts, cap, min_ms, now).contains(ready_entry(a)));
                } else {
                    assert(ix.ready.contains(ready_entry(a)));
                }
            }
        }
    }
    if ix.agrees(accounts, cap, min_ms, now) {
        assert forall|e: Seq<char>| #[trigger] w.pos.contains_key(e) implies w.loc[e] == place_of(
            w.account(accounts, e),
            cap,
            min_ms,
            now,
        ) && w.agrees_at(accounts, cap, min_ms, now, e) by {
            let a = w.account(accounts, e);
            assert(ix.pos.contains_key(e) && ix.loc.contains_key(e));
            assert(ix.agrees_at(accounts, cap, min_ms, now, e));
            assert(a.email == e);
            if ix.touched(taken, e) {
                if w.loc[e] == Loc::Cooldown {
                    lemma_kept(ix, accounts, cap, min_ms, now, e);
                }
                if w.loc[e] == Loc::Ready {
                    assert(ix.promoted(taken, accounts, cap, min_ms, now).contains(ready_entry(a)));
                }
            } else if ix.loc[e] == Loc::Cooldown {
                let x = cooldown_entry(a, min_ms);
                assert(ix.cooldown.contains(x));
                assert(!taken.contains(x));
                assert(w.cooldown.contains(x));
            } else if ix.loc[e] == Loc::Ready {
                assert(ix.ready.contains(ready_entry(a)));
            }
        }
    }
}

/// A touched account that still has to wait has an entry that says until when.
proof fn lemma_kept(
    ix: IndexView,
    accounts: Seq<AccountView>,
    cap: int,
    min_ms: int,
    now: int,
    e: Seq<char>,
)
    requires
        ix.touched(due(ix.cooldown, now), e),
        ix.account(accounts, e).email == e,
        place_of(ix.account(accounts, e), cap, min_ms, now) == Loc::Cooldown,
    ensures
        ix.warmed(accounts, cap, min_ms, now).cooldown.contains(
            cooldown_entry(ix.account(accounts, e), min_ms),
        ),
{
    broadcast use vstd::multiset::group_multiset_axioms;

    let taken = due(ix.cooldown, now);
    let x = cooldown_entry(ix.account(accounts, e), min_ms);
    lemma_counts(ix, taken, accounts, cap, min_ms, now);
    assert(ix.kept_cooling(taken, accounts, cap, min_ms, now).contains_key(x));
    let y = choose|y: EntryView| #[trigger] taken.contains(y) && y.email == e;
    let same = taken.filter(|y: EntryView| y.email == x.email);
    assert(same.count(y) > 0);
    assert(same.len() > 0) by {
        if same.len() == 0 {
            assert(same =~= Multiset::empty());
        }
    }
}

} // verus!
