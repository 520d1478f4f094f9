//! A set of e-mail addresses.

use vstd::hash_set::StringHashSet;
use vstd::prelude::*;
use vstd::string::*;

verus! {

/// A set of e-mail addresses, kept in the order in which they came.
pub struct EmailSet {
    items: Vec<String>,
    index: StringHashSet,
}

spec fn holds(items: Seq<String>, email: Seq<char>) -> bool {
    exists|i: int| 0 <= i < items.len() && #[trigger] items[i]@ == email
}

impl View for EmailSet {
    type V = Set<Seq<char>>;

    closed spec fn view(&self) -> Set<Seq<char>> {
        self.index@
    }
}

impl EmailSet {
    #[verifier::type_invariant]
    spec fn inv(self) -> bool {
        forall|e: Seq<char>| #[trigger] self.index@.contains(e) <==> holds(self.items@, e)
    }

    /// The empty set.
    pub fn new() -> (r: Self)
        ensures
            r@ == Set::<Seq<char>>::empty(),
    {
        EmailSet { items: Vec::new(), index: StringHashSet::new() }
    }

    /// Adds an address. Returns whether it was new.
    pub fn insert(&mut self, email: String) -> (added: bool)
        ensures
            final(self)@ == old(self)@.insert(email@),
            added == !old(self)@.contains(email@),
    {
        let mut held = EmailSet::new();
        core::mem::swap(&mut held, self);
        proof {
            use_type_invariant(&held);
        }
        let EmailSet { mut items, mut index } = held;
        let ghost items0 = items@;
        let ghost index0 = index@;
        let name = email.clone();
        let added = index.insert(name);
        if added {
            items.push(email);
            assert forall|e: Seq<char>| #[trigger] index@.contains(e) <==> holds(items@, e) by {
                if holds(items0, e) {
                    let i = choose|i: int| 0 <= i < items0.len() && #[trigger] items0[i]@ == e;
                    assert(items@[i]@ == e);
                }
                assert(items@[items0.len() as int]@ == email@);
                if holds(items@, e) && e != email@ {
                    let i = choose|i: int| 0 <= i < items@.len() && #[trigger] items@[i]@ == e;
                    assert(items0[i]@ == e);
                }
                assert(index0.contains(e) <==> holds(items0, e));
            }
        } else {
            assert(index@ =~= index0);
        }
        *self = EmailSet { items, index };
        added
    }

    /// Whether an address is in the set.
    pub fn contains(&self, email: &str) -> (r: bool)
        ensures
            r == self@.contains(email@),
    {
        self.index.contains(email)
    }
}

impl Clone for EmailSet {
    fn clone(&self) -> (r: Self)
        ensures
            r@ == self@,
    {
        proof {
            use_type_invariant(self);
        }
        let mut r = EmailSet::new();
        let mut i: usize = 0;
        while i < self.items.len()
            invariant
                i <= self.items@.len(),
                forall|e: Seq<char>| #[trigger]
                    r@.contains(e) <==> holds(self.items@.take(i as int), e),
            decreases self.items@.len() - i,
        {
            let ghost r0 = r@;
            r.insert(self.items[i].clone());
            proof {
                let a = self.items@.take(i as int);
                let b = self.items@.take(i + 1);
                assert forall|e: Seq<char>| #[trigger] r@.contains(e) <==> holds(b, e) by {
                    assert(r0.contains(e) <==> holds(a, e));
                    if holds(a, e) {
                        let j = choose|j: int| 0 <= j < a.len() && #[trigger] a[j]@ == e;
                        assert(b[j]@ == e);
                    }
                    assert(b[i as int]@ == self.items@[i as int]@);
                    if holds(b, e) && e != self.items@[i as int]@ {
                        let j = choose|j: int| 0 <= j < b.len() && #[trigger] b[j]@ == e;
                        assert(a[j]@ == e);
                    }
                }
            }
            i = i + 1;
        }
        assert(self.items@.take(i as int) =~= self.items@);
        assert(r@ =~= self@);
        r
    }
}

} // verus!
