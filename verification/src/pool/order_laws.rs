//! In which order accounts are taken.

use vstd::prelude::*;

use super::account_pool::AccountPoolView;
use super::acquire::lemma_choice;
use super::index::{place_of, ready_entry};
use super::laws::{lemma_rebuilt, lemma_taken_was_free};
use super::state::PoolView;
use super::warm::lemma_warmed;
use crate::heap::{entry_le, EntryView};

verus! {

impl PoolView {
    /// Account `k` carries less than account `i`, or as much and was used no later.
    pub open spec fn lighter(self, k: int, i: int) -> bool {
        let (a, b) = (self.accounts[k], self.accounts[i]);
        a.inflight < b.inflight || (a.inflight == b.inflight && a.last_used <= b.last_used)
    }
}

/// By way of the index, of the free accounts the one that carries least is taken, and of those
/// the one that was used longest ago.
pub proof fn lemma_least_loaded_first(
    p: PoolView,
    i: int,
    exclude: Set<Seq<char>>,
    min_ms: int,
    now: int,
    jitter_ms: int,
)
    requires
        p.wf(),
        p.use_index,
        p.distinct(),
        p.agrees(min_ms, now),
        p.candidate(i, exclude, min_ms, now),
    ensures
        ({
            let (q, h) = p.acquired_indexed(None, exclude, min_ms, now, jitter_ms);
            h matches Some(h) ==> exists|k: int|
                0 <= k < p.accounts.len() && h == (#[trigger] p.accounts[k]).handle() && p.lighter(
                    k,
                    i,
                ) && entry_le(ready_entry(p.accounts[k]), ready_entry(p.accounts[i]))
        }),
{
    let cap = p.max_inflight_per_account;
    let ix = p.idx->0;
    let (q, h) = p.acquired_indexed(None, exclude, min_ms, now, jitter_ms);
    if h is Some {
        let warm = ix.warmed(p.accounts, cap, min_ms, now);
        lemma_warmed(ix, p.accounts, cap, min_ms, now);
        lemma_choice(warm, p.accounts, None, exclude);
        let c = choose|x: EntryView| warm.is_best(p.accounts, x, exclude);
        assert(warm.selectable(p.accounts, c, exclude));
        let k = warm.pos[c.email] as int;
        assert(c == ready_entry(p.accounts[k]));
        let e = p.accounts[i].email;
        assert(warm.pos.contains_key(e));
        assert(p.accounts[warm.pos[e] as int].email == e);
        assert(warm.pos[e] == i);
        assert(warm.loc[e] == place_of(warm.account(p.accounts, e), cap, min_ms, now));
        assert(warm.agrees_at(p.accounts, cap, min_ms, now, e));
        assert(warm.loc.contains_key(e));
        assert(warm.selectable(p.accounts, ready_entry(p.accounts[i]), exclude));
        assert(h->0 == p.accounts[k].handle());
        assert(p.lighter(k, i));
    }
}

/// Without an index, of the free accounts the one that carries least is taken, and of those the
/// one that was started on and used longest ago.
pub proof fn lemma_scan_least_loaded_first(
    p: PoolView,
    i: int,
    exclude: Set<Seq<char>>,
    min_ms: int,
    now: int,
    jitter_ms: int,
)
    requires
        p.candidate(i, exclude, min_ms, now),
    ensures
        ({
            let (q, h) = p.acquired_scan(None, exclude, min_ms, now, jitter_ms);
            h matches Some(h) ==> exists|k: int|
                0 <= k < p.accounts.len() && h == (#[trigger] p.accounts[k]).handle() && (k == i
                    || p.before(k, i))
        }),
{
    let (q, h) = p.acquired_scan(None, exclude, min_ms, now, jitter_ms);
    if h is Some {
        let k = choose|k: int| p.is_scan_choice(k, None, exclude, min_ms, now);
        assert(p.eligible(i, None, exclude, min_ms, now));
        assert(h->0 == p.accounts[k].handle());
    }
}

/// With an index or without, no free account carries less than the one that is taken.
pub proof fn lemma_takes_least_loaded(
    p: AccountPoolView,
    i: int,
    exclude: Set<Seq<char>>,
    now: int,
    jitter_ms: int,
)
    requires
        p.current(now),
        p.state.distinct(),
        p.free(i, exclude, now),
    ensures
        ({
            let (after, h) = p.taking(None, exclude, now, jitter_ms);
            h matches Some(h) ==> exists|k: int| #[trigger]
                p.took(k, exclude, now, jitter_ms, after, h) && p.state.accounts[k].inflight
                    <= p.state.accounts[i].inflight
        }),
{
    let s = p.state;
    let min_ms = p.min_interval_ms;
    let (after, h) = p.taking(None, exclude, now, jitter_ms);
    if h is Some {
        lemma_taken_was_free(p, None, exclude, now, jitter_ms);
        let t = choose|t: int| #[trigger] p.took(t, exclude, now, jitter_ms, after, h->0);
        let k: int;
        if s.use_index {
            let f = s.refreshed(p.interval_gen, min_ms, now);
            lemma_rebuilt(s, min_ms, now);
            lemma_least_loaded_first(f, i, exclude, min_ms, now, jitter_ms);
            k = choose|k: int|
                0 <= k < f.accounts.len() && h->0 == (#[trigger] f.accounts[k]).handle()
                    && f.lighter(k, i);
        } else {
            lemma_scan_least_loaded_first(s, i, exclude, min_ms, now, jitter_ms);
            k = choose|k: int|
                0 <= k < s.accounts.len() && h->0 == (#[trigger] s.accounts[k]).handle() && (k
                    == i || s.before(k, i));
        }
        assert(s.accounts[k].email == s.accounts[t].email);
        assert(k == t);
    }
}

} // verus!
