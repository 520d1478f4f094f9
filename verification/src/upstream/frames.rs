//! Cutting the byte stream of the upstream into messages.
//!
//! A message ends with two line feeds.

use vstd::prelude::*;
use vstd::slice::*;
use vstd::string::*;
use vstd::utf8::*;

use crate::text::{from_utf8_lossy, utf8_lossy};

verus! {

/// The needle stands at place `i`.
pub open spec fn stands_at(haystack: Seq<u8>, needle: Seq<u8>, i: int) -> bool {
    &&& 0 <= i
    &&& i + needle.len() <= haystack.len()
    &&& haystack.subrange(i, i + needle.len()) == needle
}

/// The needle, which is not empty, first stands at place `i`.
pub open spec fn first_at(haystack: Seq<u8>, needle: Seq<u8>, i: int) -> bool {
    &&& needle.len() > 0
    &&& stands_at(haystack, needle, i)
    &&& forall|j: int| 0 <= j < i ==> !stands_at(haystack, needle, j)
}

/// Where a needle first stands. An empty one stands nowhere.
pub fn find_subslice(haystack: &[u8], needle: &[u8]) -> (r: Option<usize>)
    ensures
        match r {
            Some(i) => first_at(haystack@, needle@, i as int),
            None => forall|i: int| !first_at(haystack@, needle@, i),
        },
{
    if needle.len() == 0 || haystack.len() < needle.len() {
        return None;
    }
    let last: usize = haystack.len() - needle.len();
    let mut i: usize = 0;
    loop
        invariant
            last + needle@.len() == haystack@.len(),
            haystack@.len() <= usize::MAX,
            needle@.len() > 0,
            i <= last,
            forall|j: int| 0 <= j < i ==> !stands_at(haystack@, needle@, j),
        decreases last - i,
    {
        let mut k: usize = 0;
        while k < needle.len() && haystack[i + k] == needle[k]
            invariant
                k <= needle@.len(),
                i <= last,
                last + needle@.len() == haystack@.len(),
                haystack@.len() <= usize::MAX,
                forall|j: int| 0 <= j < k ==> haystack@[i + j] == needle@[j],
            decreases needle@.len() - k,
        {
            k = k + 1;
        }
        if k == needle.len() {
            assert(haystack@.subrange(i as int, i + needle@.len()) =~= needle@);
            return Some(i);
        }
        assert(!stands_at(haystack@, needle@, i as int)) by {
            assert(haystack@.subrange(i as int, i + needle@.len())[k as int] == haystack@[i + k]);
        }
        if i == last {
            return None;
        }
        i = i + 1;
    }
}

/// What ends a message.
pub open spec fn message_end() -> Seq<u8> {
    seq![10u8, 10u8]
}

/// The messages that are complete.
pub open spec fn frames(bytes: Seq<u8>) -> Seq<Seq<u8>>
    decreases bytes.len(),
{
    if exists|i: int| first_at(bytes, message_end(), i) {
        let i = choose|i: int| first_at(bytes, message_end(), i);
        if 0 <= i && i + 2 <= bytes.len() {
            seq![bytes.take(i)] + frames(bytes.skip(i + 2))
        } else {
            Seq::empty()
        }
    } else {
        Seq::empty()
    }
}

/// What is left after the complete messages.
pub open spec fn leftover(bytes: Seq<u8>) -> Seq<u8>
    decreases bytes.len(),
{
    if exists|i: int| first_at(bytes, message_end(), i) {
        let i = choose|i: int| first_at(bytes, message_end(), i);
        if 0 <= i && i + 2 <= bytes.len() {
            leftover(bytes.skip(i + 2))
        } else {
            bytes
        }
    } else {
        bytes
    }
}

/// One step of cutting: the first message and the rest.
pub proof fn lemma_first_frame(bytes: Seq<u8>, i: int)
    requires
        first_at(bytes, message_end(), i),
    ensures
        frames(bytes) == seq![bytes.take(i)] + frames(bytes.skip(i + 2)),
        leftover(bytes) == leftover(bytes.skip(i + 2)),
{
    let k = choose|k: int| first_at(bytes, message_end(), k);
    assert(k == i);
}

/// Cutting does not depend on how the bytes are grouped: the messages are the same whether
/// the bytes come at once or one part after the other.
pub proof fn lemma_cutting_ignores_chunks(a: Seq<u8>, b: Seq<u8>)
    ensures
        frames(a + b) == frames(a) + frames(leftover(a) + b),
        leftover(a + b) == leftover(leftover(a) + b),
    decreases a.len(),
{
    if exists|i: int| first_at(a, message_end(), i) {
        let i = choose|i: int| first_at(a, message_end(), i);
        let whole = a + b;
        assert(whole.subrange(i, i + 2) =~= a.subrange(i, i + 2));
        assert forall|j: int| 0 <= j < i implies !stands_at(whole, message_end(), j) by {
            assert(whole.subrange(j, j + 2) =~= a.subrange(j, j + 2));
            assert(!stands_at(a, message_end(), j));
        }
        assert(first_at(whole, message_end(), i));
        lemma_first_frame(whole, i);
        lemma_first_frame(a, i);
        assert(whole.skip(i + 2) =~= a.skip(i + 2) + b);
        assert(whole.take(i) =~= a.take(i));
        lemma_cutting_ignores_chunks(a.skip(i + 2), b);
        assert(frames(whole) =~= frames(a) + frames(leftover(a) + b));
    } else {
        assert(frames(a) + frames(a + b) =~= frames(a + b));
    }
}

/// No complete message is left over.
pub proof fn lemma_leftover_has_no_message(bytes: Seq<u8>)
    ensures
        forall|i: int| !first_at(leftover(bytes), message_end(), i),
        frames(leftover(bytes)) == Seq::<Seq<u8>>::empty(),
    decreases bytes.len(),
{
    if exists|i: int| first_at(bytes, message_end(), i) {
        let i = choose|i: int| first_at(bytes, message_end(), i);
        lemma_leftover_has_no_message(bytes.skip(i + 2));
    }
}

/// The messages, each with the two line feeds that end it, one after the other.
pub open spec fn put_together(messages: Seq<Seq<u8>>) -> Seq<u8>
    decreases messages.len(),
{
    if messages.len() == 0 {
        Seq::empty()
    } else {
        messages[0] + seq![10u8, 10u8] + put_together(messages.drop_first())
    }
}

/// Nowhere in the bytes is there a line feed after a line feed.
pub open spec fn is_one_piece(bytes: Seq<u8>) -> bool {
    forall|i: int| 0 <= i < bytes.len() - 1 && #[trigger] bytes[i] == 10 ==> bytes[i + 1] != 10
}

/// Cutting loses nothing and adds nothing: the messages with their ends, and what is left over,
/// make up the bytes. No message holds the end of one, nor is cut too late.
pub proof fn lemma_cutting_loses_nothing(bytes: Seq<u8>)
    ensures
        put_together(frames(bytes)) + leftover(bytes) == bytes,
        is_one_piece(leftover(bytes)),
        forall|k: int|
            0 <= k < frames(bytes).len() ==> is_one_piece(#[trigger] frames(bytes)[k]) && (
            frames(bytes)[k].len() > 0 ==> frames(bytes)[k].last() != 10),
    decreases bytes.len(),
{
    if exists|i: int| first_at(bytes, message_end(), i) {
        let i = choose|i: int| first_at(bytes, message_end(), i);
        let first = bytes.take(i);
        let rest = bytes.skip(i + 2);
        lemma_first_frame(bytes, i);
        lemma_cutting_loses_nothing(rest);
        let all = frames(bytes);
        assert(all.drop_first() =~= frames(rest));
        assert(all[0] == first);
        let end = bytes.subrange(i, i + 2);
        assert(end == message_end());
        assert(end[0] == bytes[i] && end[1] == bytes[i + 1]);
        assert(put_together(all) + leftover(bytes) =~= first + seq![10u8, 10u8] + (put_together(
            frames(rest),
        ) + leftover(rest)));
        assert(bytes =~= first + seq![10u8, 10u8] + rest);
        assert(is_one_piece(first)) by {
            assert forall|j: int| 0 <= j < first.len() - 1 && #[trigger] first[j] == 10 implies first[j
                + 1] != 10 by {
                assert(!stands_at(bytes, message_end(), j));
                if first[j + 1] == 10 {
                    assert(bytes.subrange(j, j + 2) =~= message_end());
                }
            }
        }
        if first.len() > 0 && first.last() == 10 {
            assert(!stands_at(bytes, message_end(), i - 1));
            assert(bytes.subrange(i - 1, i + 1) =~= message_end());
        }
        assert forall|k: int| 0 <= k < all.len() implies is_one_piece(#[trigger] all[k]) && (
        all[k].len() > 0 ==> all[k].last() != 10) by {
            if k > 0 {
                assert(all[k] == frames(rest)[k - 1]);
            }
        }
    } else {
        assert(put_together(frames(bytes)) + leftover(bytes) =~= bytes);
        assert forall|j: int| 0 <= j < bytes.len() - 1 && #[trigger] bytes[j] == 10 implies bytes[j
            + 1] != 10 by {
            if bytes[j + 1] == 10 {
                assert(bytes.subrange(j, j + 2) =~= message_end());
                lemma_some_first(bytes, j);
            }
        }
    }
}

/// Where the end of a message stands somewhere, it first stands somewhere.
proof fn lemma_some_first(bytes: Seq<u8>, j: int)
    requires
        stands_at(bytes, message_end(), j),
    ensures
        exists|i: int| first_at(bytes, message_end(), i),
    decreases j,
{
    if forall|k: int| 0 <= k < j ==> !stands_at(bytes, message_end(), k) {
        assert(first_at(bytes, message_end(), j));
    } else {
        let k = choose|k: int| 0 <= k < j && stands_at(bytes, message_end(), k);
        lemma_some_first(bytes, k);
    }
}

/// Cutting does not break characters: the messages of a UTF-8 text, and what is left over, are
/// UTF-8 texts.
pub proof fn lemma_cutting_keeps_characters(bytes: Seq<u8>)
    requires
        valid_utf8(bytes),
    ensures
        forall|k: int| 0 <= k < frames(bytes).len() ==> valid_utf8(#[trigger] frames(bytes)[k]),
        valid_utf8(leftover(bytes)),
    decreases bytes.len(),
{
    if exists|i: int| first_at(bytes, message_end(), i) {
        let i = choose|i: int| first_at(bytes, message_end(), i);
        let end = bytes.subrange(i, i + 2);
        assert(end[0] == bytes[i] && end[1] == bytes[i + 1]);
        assert(!is_continuation_byte(bytes[i]) && !is_continuation_byte(bytes[i + 1]));
        is_char_boundary_iff_not_is_continuation_byte(bytes, i);
        is_char_boundary_iff_not_is_continuation_byte(bytes, i + 1);
        valid_utf8_split(bytes, i);
        valid_utf8_split(bytes, i + 1);
        assert(bytes.subrange(0, i) =~= bytes.take(i));
        let second = bytes.subrange(i + 1, bytes.len() as int);
        assert(second[0] == 10);
        assert(pop_first_scalar(second) =~= bytes.skip(i + 2));
        lemma_first_frame(bytes, i);
        lemma_cutting_keeps_characters(bytes.skip(i + 2));
        assert forall|k: int| 0 <= k < frames(bytes).len() implies valid_utf8(
            #[trigger] frames(bytes)[k],
        ) by {
            if k > 0 {
                assert(frames(bytes)[k] == frames(bytes.skip(i + 2))[k - 1]);
            }
        }
    }
}

/// The bytes that have not been cut yet.
pub struct Framer {
    pub buffer: Vec<u8>,
}

impl Framer {
    /// No bytes have come.
    pub fn new() -> (r: Self)
        ensures
            r.buffer@ == Seq::<u8>::empty(),
    {
        Framer { buffer: Vec::new() }
    }

    /// More bytes have come.
    pub fn feed(&mut self, chunk: &[u8])
        ensures
            final(self).buffer@ == old(self).buffer@ + chunk@,
    {
        let mut i: usize = 0;
        assert(chunk@.take(0) =~= Seq::empty());
        assert(self.buffer@ + chunk@.take(0) =~= self.buffer@);
        while i < chunk.len()
            invariant
                i <= chunk@.len(),
                self.buffer@ == old(self).buffer@ + chunk@.take(i as int),
            decreases chunk@.len() - i,
        {
            self.buffer.push(chunk[i]);
            assert(self.buffer@ =~= old(self).buffer@ + chunk@.take(i + 1));
            i = i + 1;
        }
        assert(chunk@.take(i as int) =~= chunk@);
    }

    /// Cuts off the next message, where one is complete.
    pub fn next_message(&mut self) -> (r: Option<String>)
        ensures
            match r {
                Some(m) => {
                    &&& frames(old(self).buffer@).len() > 0
                    &&& m@ == utf8_lossy(frames(old(self).buffer@)[0])
                    &&& frames(final(self).buffer@) == frames(old(self).buffer@).drop_first()
                    &&& leftover(final(self).buffer@) == leftover(old(self).buffer@)
                    &&& final(self).buffer@.len() < old(self).buffer@.len()
                },
                None => frames(old(self).buffer@).len() == 0 && final(self).buffer@
                    == old(self).buffer@ && leftover(old(self).buffer@) == old(self).buffer@,
            },
    {
        let ghost b = self.buffer@;
        let end: [u8; 2] = [10, 10];
        proof {
            assert(end@ =~= message_end());
        }
        let n: usize = self.buffer.len();
        match find_subslice(self.buffer.as_slice(), &end) {
            None => None,
            Some(p) => {
                proof {
                    lemma_first_frame(b, p as int);
                    assert(frames(b).drop_first() =~= frames(b.skip(p + 2)));
                }
                let message = slice_subrange(self.buffer.as_slice(), 0, p);
                assert(message@ =~= b.take(p as int));
                let text = from_utf8_lossy(message);
                assert(p + 2 <= n);
                let rest = self.buffer.split_off(p + 2);
                assert(rest@ =~= b.skip(p + 2));
                self.buffer = rest;
                Some(text)
            },
        }
    }

    /// Takes what is left when no more bytes come; nothing where there is none.
    pub fn take_rest(&mut self) -> (r: Option<String>)
        ensures
            final(self).buffer@ == Seq::<u8>::empty(),
            match r {
                Some(m) => old(self).buffer@.len() > 0 && m@ == utf8_lossy(old(self).buffer@),
                None => old(self).buffer@.len() == 0,
            },
    {
        if self.buffer.len() == 0 {
            assert(self.buffer@ =~= Seq::empty());
            return None;
        }
        let text = from_utf8_lossy(self.buffer.as_slice());
        self.buffer = Vec::new();
        Some(text)
    }
}

} // verus!
