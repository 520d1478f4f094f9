//! A binary min-heap of account entries.
//!
//! An entry is ordered by its rank, then by its time, then by its e-mail address
//! (byte by byte, as strings are). The contents are a multiset: the same entry
//! may be held several times.

use vstd::multiset::*;
use vstd::prelude::*;
use vstd::string::*;
use vstd::utf8::*;

use crate::text::lemma_bytes_determine_chars;

verus! {

/// What a heap entry holds, as a mathematical value.
#[verifier::ext_equal]
pub struct EntryView {
    pub rank: int,
    pub at: int,
    pub email: Seq<char>,
}

/// One heap entry.
pub struct Entry {
    pub rank: i64,
    pub at: u128,
    pub email: String,
}

impl View for Entry {
    type V = EntryView;

    open spec fn view(&self) -> EntryView {
        EntryView { rank: self.rank as int, at: self.at as int, email: self.email@ }
    }
}

/// Byte-by-byte lexicographic order; a proper prefix comes first.
pub open spec fn bytes_lt(a: Seq<u8>, b: Seq<u8>) -> bool
    decreases a.len(),
{
    if b.len() == 0 {
        false
    } else if a.len() == 0 {
        true
    } else if a[0] != b[0] {
        a[0] < b[0]
    } else {
        bytes_lt(a.drop_first(), b.drop_first())
    }
}

/// The order of two entries: rank, then time, then e-mail address.
pub open spec fn entry_lt(a: EntryView, b: EntryView) -> bool {
    if a.rank != b.rank {
        a.rank < b.rank
    } else if a.at != b.at {
        a.at < b.at
    } else {
        bytes_lt(encode_utf8(a.email), encode_utf8(b.email))
    }
}

/// `a` does not come after `b`.
pub open spec fn entry_le(a: EntryView, b: EntryView) -> bool {
    !entry_lt(b, a)
}

proof fn lemma_bytes_lt_irreflexive(a: Seq<u8>)
    ensures
        !bytes_lt(a, a),
    decreases a.len(),
{
    if a.len() > 0 {
        lemma_bytes_lt_irreflexive(a.drop_first());
    }
}

proof fn lemma_bytes_lt_total(a: Seq<u8>, b: Seq<u8>)
    ensures
        a == b || bytes_lt(a, b) || bytes_lt(b, a),
        !(bytes_lt(a, b) && bytes_lt(b, a)),
    decreases a.len(),
{
    if a.len() > 0 && b.len() > 0 {
        lemma_bytes_lt_total(a.drop_first(), b.drop_first());
        if a[0] == b[0] && a.drop_first() == b.drop_first() {
            assert(a =~= seq![a[0]] + a.drop_first());
            assert(b =~= seq![b[0]] + b.drop_first());
        }
    } else if a.len() == 0 && b.len() == 0 {
        assert(a =~= b);
    }
}

proof fn lemma_bytes_lt_transitive(a: Seq<u8>, b: Seq<u8>, c: Seq<u8>)
    requires
        bytes_lt(a, b),
        bytes_lt(b, c),
    ensures
        bytes_lt(a, c),
    decreases a.len(),
{
    if a.len() > 0 && b.len() > 0 && c.len() > 0 && a[0] == b[0] && b[0] == c[0] {
        lemma_bytes_lt_transitive(a.drop_first(), b.drop_first(), c.drop_first());
    }
}

/// The bytes `a` come before `b` in a dictionary: where they first differ, `a` has the smaller byte
/// or is at its end.
pub open spec fn comes_first(a: Seq<u8>, b: Seq<u8>) -> bool {
    exists|n: int|
        #![trigger a.take(n)]
        0 <= n <= a.len() && n < b.len() && a.take(n) == b.take(n) && (n == a.len() || a[n] < b[n])
}

/// Byte strings are ordered as in a dictionary.
pub proof fn lemma_bytes_lt_dictionary(a: Seq<u8>, b: Seq<u8>)
    ensures
        bytes_lt(a, b) <==> comes_first(a, b),
    decreases a.len(),
{
    if a.len() > 0 && b.len() > 0 && a[0] == b[0] {
        let (x, y) = (a.drop_first(), b.drop_first());
        lemma_bytes_lt_dictionary(x, y);
        if comes_first(x, y) {
            let n = choose|n: int|
                #![trigger x.take(n)]
                0 <= n <= x.len() && n < y.len() && x.take(n) == y.take(n) && (n == x.len() || x[n]
                    < y[n]);
            assert(a.take(n + 1) =~= seq![a[0]] + x.take(n));
            assert(b.take(n + 1) =~= seq![b[0]] + y.take(n));
            assert(a.take(n + 1) == b.take(n + 1));
        }
        if comes_first(a, b) {
            let n = choose|n: int|
                #![trigger a.take(n)]
                0 <= n <= a.len() && n < b.len() && a.take(n) == b.take(n) && (n == a.len() || a[n]
                    < b[n]);
            assert(n > 0);
            assert(x.take(n - 1) =~= a.take(n).drop_first());
            assert(y.take(n - 1) =~= b.take(n).drop_first());
        }
    } else {
        assert(a.take(0) =~= b.take(0));
        if comes_first(a, b) {
            let n = choose|n: int|
                #![trigger a.take(n)]
                0 <= n <= a.len() && n < b.len() && a.take(n) == b.take(n) && (n == a.len() || a[n]
                    < b[n]);
            if n > 0 {
                assert(a.take(n)[0] == b.take(n)[0]);
            }
        }
    }
}

/// Any two entries compare one way only, and only equal entries tie.
pub proof fn lemma_entry_total(a: EntryView, b: EntryView)
    ensures
        a == b || entry_lt(a, b) || entry_lt(b, a),
        !(entry_lt(a, b) && entry_lt(b, a)),
        !entry_lt(a, a),
{
    lemma_bytes_lt_total(encode_utf8(a.email), encode_utf8(b.email));
    lemma_bytes_lt_irreflexive(encode_utf8(a.email));
    lemma_bytes_determine_chars(a.email, b.email);
}

/// "Not after" is transitive.
pub proof fn lemma_entry_le_transitive(a: EntryView, b: EntryView, c: EntryView)
    requires
        entry_le(a, b),
        entry_le(b, c),
    ensures
        entry_le(a, c),
{
    let (x, y, z) = (encode_utf8(a.email), encode_utf8(b.email), encode_utf8(c.email));
    lemma_bytes_lt_total(x, y);
    lemma_bytes_lt_total(y, z);
    lemma_bytes_lt_total(x, z);
    lemma_bytes_lt_irreflexive(x);
    lemma_bytes_lt_irreflexive(z);
    if bytes_lt(x, y) && bytes_lt(y, z) {
        lemma_bytes_lt_transitive(x, y, z);
    }
}

/// Whether one byte string comes before another.
fn bytes_less(x: &[u8], y: &[u8]) -> (r: bool)
    ensures
        r == bytes_lt(x@, y@),
{
    let mut i: usize = 0;
    assert(x@.skip(0) =~= x@);
    assert(y@.skip(0) =~= y@);
    while i < x.len() && i < y.len()
        invariant
            i <= x@.len(),
            i <= y@.len(),
            bytes_lt(x@, y@) == bytes_lt(x@.skip(i as int), y@.skip(i as int)),
        decreases x@.len() - i,
    {
        assert(x@.skip(i as int).drop_first() =~= x@.skip(i + 1));
        assert(y@.skip(i as int).drop_first() =~= y@.skip(i + 1));
        if x[i] != y[i] {
            return x[i] < y[i];
        }
        i = i + 1;
    }
    i < y.len()
}

/// Whether `a` comes before `b`.
fn entry_less(a: &Entry, b: &Entry) -> (r: bool)
    ensures
        r == entry_lt(a@, b@),
{
    if a.rank != b.rank {
        a.rank < b.rank
    } else if a.at != b.at {
        a.at < b.at
    } else {
        bytes_less(a.email.as_str().as_bytes(), b.email.as_str().as_bytes())
    }
}

/// The entries of a vector, as mathematical values.
spec fn views(s: Seq<Entry>) -> Seq<EntryView> {
    s.map_values(|e: Entry| e@)
}

/// No item comes before its parent.
spec fn heap_ordered(s: Seq<EntryView>) -> bool {
    forall|k: int| 1 <= k < s.len() ==> entry_le(s[(k - 1) / 2], #[trigger] s[k])
}

/// No item but the one at `i` comes before its parent, and the children of `i` come no
/// earlier than its parent.
spec fn ordered_above(s: Seq<EntryView>, i: int) -> bool {
    &&& forall|k: int| 1 <= k < s.len() && k != i ==> entry_le(s[(k - 1) / 2], #[trigger] s[k])
    &&& forall|k: int|
        1 <= k < s.len() && i > 0 && (k - 1) / 2 == i ==> entry_le(s[(i - 1) / 2], #[trigger] s[k])
}

/// No item but the children of `i` comes before its parent, and those children come no
/// earlier than the parent of `i`.
spec fn ordered_below(s: Seq<EntryView>, i: int) -> bool {
    &&& forall|k: int|
        1 <= k < s.len() && (k - 1) / 2 != i ==> entry_le(s[(k - 1) / 2], #[trigger] s[k])
    &&& forall|k: int|
        1 <= k < s.len() && i > 0 && (k - 1) / 2 == i ==> entry_le(s[(i - 1) / 2], #[trigger] s[k])
}

/// In an ordered heap nothing comes before the root.
proof fn lemma_root_is_least(s: Seq<EntryView>, k: int)
    requires
        heap_ordered(s),
        0 <= k < s.len(),
    ensures
        entry_le(s[0], s[k]),
    decreases k,
{
    lemma_entry_total(s[0], s[0]);
    if k > 0 {
        lemma_root_is_least(s, (k - 1) / 2);
        lemma_entry_le_transitive(s[0], s[(k - 1) / 2], s[k]);
    }
}

/// Replacing one item of a sequence replaces it in the multiset.
proof fn lemma_update_multiset(s: Seq<EntryView>, i: int, x: EntryView)
    requires
        0 <= i < s.len(),
    ensures
        s.update(i, x).to_multiset() =~= s.to_multiset().remove(s[i]).insert(x),
{
    broadcast use vstd::multiset::group_multiset_axioms;

    let u = s.update(i, x);
    assert(u.remove(i) =~= s.remove(i));
    u.to_multiset_ensures();
    s.to_multiset_ensures();
    assert(u.remove(i).to_multiset() =~= u.to_multiset().remove(u[i]));
    assert(s.remove(i).to_multiset() =~= s.to_multiset().remove(s[i]));
    assert(u.contains(u[i]));
    assert(u.to_multiset().count(x) > 0);
    assert(u.to_multiset() =~= u.to_multiset().remove(x).insert(x));
}

/// Exchanging two items of a sequence leaves the multiset as it was.
proof fn lemma_swap_multiset(s: Seq<EntryView>, i: int, j: int)
    requires
        0 <= i < s.len(),
        0 <= j < s.len(),
        i != j,
    ensures
        s.update(i, s[j]).update(j, s[i]).to_multiset() =~= s.to_multiset(),
{
    broadcast use vstd::multiset::group_multiset_axioms;

    lemma_update_multiset(s, i, s[j]);
    lemma_update_multiset(s.update(i, s[j]), j, s[i]);
    s.to_multiset_ensures();
    assert(s.contains(s[i]));
    assert(s.to_multiset().count(s[i]) > 0);
}

/// Exchanges two items of a vector.
fn swap_items(v: &mut Vec<Entry>, i: usize, j: usize)
    requires
        i < old(v)@.len(),
        j < old(v)@.len(),
        i != j,
    ensures
        final(v)@.len() == old(v)@.len(),
        views(final(v)@) == views(old(v)@).update(i as int, views(old(v)@)[j as int]).update(
            j as int,
            views(old(v)@)[i as int],
        ),
{
    let mut held = Entry { rank: 0, at: 0, email: String::new() };
    core::mem::swap(&mut v[i], &mut held);
    core::mem::swap(&mut v[j], &mut held);
    core::mem::swap(&mut v[i], &mut held);
    assert(views(v@) =~= views(old(v)@).update(i as int, views(old(v)@)[j as int]).update(
        j as int,
        views(old(v)@)[i as int],
    ));
}

/// A min-heap of entries.
pub struct EntryHeap {
    pub items: Vec<Entry>,
}

impl View for EntryHeap {
    type V = Multiset<EntryView>;

    closed spec fn view(&self) -> Multiset<EntryView> {
        views(self.items@).to_multiset()
    }
}

impl EntryHeap {
    /// The items are in heap order.
    pub closed spec fn wf(&self) -> bool {
        heap_ordered(views(self.items@))
    }

    /// A heap with nothing in it.
    pub fn new() -> (r: Self)
        ensures
            r.wf(),
            r@ == Multiset::<EntryView>::empty(),
    {
        let r = EntryHeap { items: Vec::new() };
        proof {
            views(r.items@).to_multiset_ensures();
            assert(r@ =~= Multiset::<EntryView>::empty());
        }
        r
    }

    /// Removes everything.
    pub fn clear(&mut self)
        ensures
            final(self).wf(),
            final(self)@ == Multiset::<EntryView>::empty(),
    {
        self.items.clear();
        proof {
            views(self.items@).to_multiset_ensures();
            assert(self@ =~= Multiset::<EntryView>::empty());
        }
    }

    /// Adds one entry.
    pub fn push(&mut self, e: Entry)
        requires
            old(self).wf(),
        ensures
            final(self).wf(),
            final(self)@ == old(self)@.insert(e@),
    {
        let ghost before = views(self.items@);
        self.items.push(e);
        let mut i: usize = self.items.len() - 1;
        proof {
            assert(views(self.items@) =~= before.push(e@));
            before.to_multiset_ensures();
        }
        while i > 0
            invariant
                i < self.items@.len(),
                ordered_above(views(self.items@), i as int),
                views(self.items@).to_multiset() == before.push(e@).to_multiset(),
            ensures
                heap_ordered(views(self.items@)),
                views(self.items@).to_multiset() == before.push(e@).to_multiset(),
            decreases i,
        {
            let p: usize = (i - 1) / 2;
            let ghost s = views(self.items@);
            if !entry_less(&self.items[i], &self.items[p]) {
                assert(heap_ordered(s)) by {
                    assert(entry_le(s[(i - 1) / 2], s[i as int]));
                }
                break;
            }
            swap_items(&mut self.items, i, p);
            proof {
                lemma_swap_multiset(s, i as int, p as int);
                Self::lemma_sift_up(s, i as int, p as int);
            }
            i = p;
        }
    }

    proof fn lemma_sift_up(s: Seq<EntryView>, i: int, p: int)
        requires
            0 < i < s.len(),
            p == (i - 1) / 2,
            ordered_above(s, i),
            entry_lt(s[i], s[p]),
        ensures
            ordered_above(s.update(i, s[p]).update(p, s[i]), p),
    {
        let t = s.update(i, s[p]).update(p, s[i]);
        lemma_entry_total(s[i], s[p]);
        assert forall|k: int| 1 <= k < t.len() && k != p implies entry_le(
            t[(k - 1) / 2],
            #[trigger] t[k],
        ) by {
            let q = (k - 1) / 2;
            if k == i {
            } else if q == i {
                assert(t[k] == s[k] && t[q] == s[p]);
            } else if q == p {
                assert(t[k] == s[k]);
                assert(entry_le(s[p], s[k]));
                lemma_entry_le_transitive(s[i], s[p], s[k]);
            } else {
                assert(t[k] == s[k] && t[q] == s[q]);
            }
        }
        assert forall|k: int| 1 <= k < t.len() && p > 0 && (k - 1) / 2 == p implies entry_le(
            t[(p - 1) / 2],
            #[trigger] t[k],
        ) by {
            let g = (p - 1) / 2;
            assert(t[g] == s[g]);
            assert(entry_le(s[g], s[p]));
            if k != i {
                assert(t[k] == s[k]);
                assert(entry_le(s[p], s[k]));
                lemma_entry_le_transitive(s[g], s[p], s[k]);
            }
        }
    }

    /// The least entry, left in place.
    pub fn peek(&self) -> (r: Option<&Entry>)
        requires
            self.wf(),
        ensures
            r is None <==> self@.len() == 0,
            r matches Some(e) ==> self@.contains(e@) && forall|x: EntryView|
                self@.contains(x) ==> entry_le(e@, x),
    {
        proof {
            Self::lemma_least(views(self.items@));
        }
        if self.items.len() == 0 {
            None
        } else {
            Some(&self.items[0])
        }
    }

    /// Removes a least entry.
    pub fn pop(&mut self) -> (r: Option<Entry>)
        requires
            old(self).wf(),
        ensures
            final(self).wf(),
            match r {
                None => old(self)@.len() == 0 && final(self)@ == old(self)@,
                Some(e) => {
                    &&& old(self)@.contains(e@)
                    &&& forall|x: EntryView| old(self)@.contains(x) ==> entry_le(e@, x)
                    &&& final(self)@ == old(self)@.remove(e@)
                },
            },
    {
        let ghost before = views(self.items@);
        proof {
            Self::lemma_least(before);
            before.to_multiset_ensures();
        }
        if self.items.len() == 0 {
            return None;
        }
        let e = self.items.swap_remove(0);
        let n: usize = self.items.len();
        proof {
            let after = views(self.items@);
            let last = before.len() - 1;
            if last == 0 {
                assert(after =~= before.remove(0));
            } else {
                assert(after =~= before.drop_last().update(0, before[last]));
                lemma_update_multiset(before.drop_last(), 0, before[last]);
                assert(before.drop_last() =~= before.remove(last));
                before.drop_last().to_multiset_ensures();
                assert(before.drop_last().contains(before[0])) by {
                    assert(before.drop_last()[0] == before[0]);
                }
                assert(before.contains(before[last]));
                assert(after.to_multiset() =~= before.to_multiset().remove(before[0])) by {
                    broadcast use vstd::multiset::group_multiset_axioms;

                    assert(before.to_multiset().count(before[last]) > 0);
                    assert(before.drop_last().to_multiset().count(before[0]) > 0);
                }
            }
            assert(ordered_below(after, 0)) by {
                assert forall|k: int| 1 <= k < after.len() && (k - 1) / 2 != 0 implies entry_le(
                    after[(k - 1) / 2],
                    #[trigger] after[k],
                ) by {
                    assert(after[k] == before[k] && after[(k - 1) / 2] == before[(k - 1) / 2]);
                }
            }
        }
        let mut i: usize = 0;
        while i < n / 2
            invariant
                n == self.items@.len(),
                i < n || n == 0,
                ordered_below(views(self.items@), i as int),
                views(self.items@).to_multiset() == before.to_multiset().remove(before[0]),
            ensures
                heap_ordered(views(self.items@)),
                views(self.items@).to_multiset() == before.to_multiset().remove(before[0]),
            decreases n - i,
        {
            let left: usize = 2 * i + 1;
            let mut child: usize = left;
            let ghost s = views(self.items@);
            if left + 1 < n && entry_less(&self.items[left + 1], &self.items[left]) {
                child = left + 1;
            }
            proof {
                lemma_entry_total(s[left as int], s[child as int]);
                if left + 1 < n {
                    lemma_entry_total(s[left + 1], s[child as int]);
                }
            }
            if !entry_less(&self.items[child], &self.items[i]) {
                assert(heap_ordered(s)) by {
                    assert forall|k: int| 1 <= k < s.len() implies entry_le(
                        s[(k - 1) / 2],
                        #[trigger] s[k],
                    ) by {
                        if (k - 1) / 2 == i {
                            assert(k == left || k == left + 1);
                            lemma_entry_le_transitive(s[i as int], s[child as int], s[k]);
                        }
                    }
                }
                break;
            }
            swap_items(&mut self.items, i, child);
            proof {
                lemma_swap_multiset(s, i as int, child as int);
                Self::lemma_sift_down(s, i as int, child as int);
            }
            i = child;
        }
        Some(e)
    }

    proof fn lemma_sift_down(s: Seq<EntryView>, i: int, c: int)
        requires
            0 <= i < c < s.len(),
            i == (c - 1) / 2,
            ordered_below(s, i),
            entry_lt(s[c], s[i]),
            forall|k: int| 1 <= k < s.len() && (k - 1) / 2 == i ==> entry_le(s[c], #[trigger] s[k]),
        ensures
            ordered_below(s.update(i, s[c]).update(c, s[i]), c),
    {
        let t = s.update(i, s[c]).update(c, s[i]);
        lemma_entry_total(s[c], s[i]);
        assert forall|k: int| 1 <= k < t.len() && (k - 1) / 2 != c implies entry_le(
            t[(k - 1) / 2],
            #[trigger] t[k],
        ) by {
            let q = (k - 1) / 2;
            if k == c {
            } else if k == i {
                assert(q != i && q != c);
                assert(entry_le(s[q], s[c]));
            } else if q == i {
                assert(t[k] == s[k]);
            } else {
                assert(t[k] == s[k] && t[q] == s[q]);
            }
        }
        assert forall|k: int| 1 <= k < t.len() && c > 0 && (k - 1) / 2 == c implies entry_le(
            t[(c - 1) / 2],
            #[trigger] t[k],
        ) by {
            assert(t[k] == s[k]);
            assert(entry_le(s[(k - 1) / 2], s[k]));
        }
    }

    proof fn lemma_least(s: Seq<EntryView>)
        requires
            heap_ordered(s),
        ensures
            s.to_multiset().len() == s.len(),
            s.len() > 0 ==> s.to_multiset().contains(s[0]),
            s.len() > 0 ==> forall|x: EntryView| s.to_multiset().contains(x) ==> entry_le(s[0], x),
    {
        s.to_multiset_ensures();
        if s.len() > 0 {
            assert(s.contains(s[0]));
            assert forall|x: EntryView| s.to_multiset().contains(x) implies entry_le(s[0], x) by {
                assert(s.contains(x));
                let k = choose|k: int| 0 <= k < s.len() && s[k] == x;
                lemma_root_is_least(s, k);
            }
        }
    }
}

} // verus!
