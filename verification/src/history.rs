//! Usage history with time-decayed scoring.
//!
//! Tracks, per query and per item, how often the item was activated and
//! when it was last used; items used recently and often score higher.
//! Times are milliseconds since the Unix epoch.

use vstd::prelude::*;
use vstd::string::*;

use crate::keyed::KeyedVec;
use crate::text::{data_file, data_file_path, opt_str_view};
use crate::userdata::now_millis;

verus! {

/// Usage of one item for one query.
#[derive(Debug, Clone, Copy, PartialEq, Eq, Structural)]
pub struct HistoryEntry {
    /// How many times the item was activated for the query.
    pub count: u32,
    /// When it was last activated.
    pub last_used: i64,
}

/// Milliseconds in a day.
pub const DAY_MILLIS: i64 = 86_400_000;

/// Whole days from `last_used` to `now`; 0 if `now` is not later.
pub open spec fn days_since(last_used: i64, now: i64) -> int {
    if now - last_used <= 0 {
        0
    } else {
        (now - last_used) / (DAY_MILLIS as int)
    }
}

/// The usage score of an entry: `max(0, 10 - days since last use) * min(count, 10)`.
pub open spec fn entry_score(e: HistoryEntry, now: i64) -> int {
    let d = days_since(e.last_used, now);
    let base = if d >= 10 { 0 } else { 10 - d };
    let c = if e.count < 10 { e.count as int } else { 10 };
    base * c
}

/// The entries of a history: query, then item id, to usage.
pub type HistoryView = Map<Seq<char>, Map<Seq<char>, HistoryEntry>>;

/// The entry recorded for `query` and `item`, if any.
pub open spec fn entry_of(h: HistoryView, query: Seq<char>, item: Seq<char>) -> Option<HistoryEntry> {
    if h.contains_key(query) && h[query].contains_key(item) {
        Some(h[query][item])
    } else {
        None
    }
}

/// `h` after recording one use of `item` for `query` at `now`.
pub open spec fn recorded(h: HistoryView, query: Seq<char>, item: Seq<char>, now: i64) -> HistoryView {
    let inner = if h.contains_key(query) {
        h[query]
    } else {
        Map::empty()
    };
    let count: u32 = match entry_of(h, query, item) {
        Some(e) => if e.count < u32::MAX {
            (e.count + 1) as u32
        } else {
            e.count
        },
        None => 1,
    };
    h.insert(query, inner.insert(item, HistoryEntry { count, last_used: now }))
}

/// Whether a list of entries has one for `query` and `item`.
pub open spec fn listed(r: Seq<(String, String, HistoryEntry)>, query: Seq<char>, item: Seq<char>) -> bool {
    exists|t: int| 0 <= t < r.len() && (#[trigger] r[t]).0@ == query && r[t].1@ == item
}

/// What a list lists, a longer list with it as a prefix lists too.
pub proof fn lemma_listed_push(a: Seq<(String, String, HistoryEntry)>, b: Seq<(String, String, HistoryEntry)>)
    requires
        a.is_prefix_of(b),
    ensures
        forall|q: Seq<char>, k: Seq<char>| #[trigger] listed(a, q, k) ==> listed(b, q, k),
{
    assert forall|q: Seq<char>, k: Seq<char>| #[trigger] listed(a, q, k) implies listed(b, q, k) by {
        let t = choose|t: int| 0 <= t < a.len() && (#[trigger] a[t]).0@ == q && a[t].1@ == k;
        assert(b[t] == a[t]);
    }
}

/// The full history: per query, per item, usage.
pub struct History {
    entries: KeyedVec<KeyedVec<HistoryEntry>>,
}

impl View for History {
    type V = HistoryView;

    closed spec fn view(&self) -> HistoryView {
        self.entries.map().map_values(|m: KeyedVec<HistoryEntry>| m.map())
    }
}

impl History {
    /// The history's invariant.
    pub closed spec fn wf(&self) -> bool {
        &&& self.entries.wf()
        &&& forall|q: Seq<char>| #[trigger] self.entries.map().contains_key(q) ==> self.entries.map()[q].wf()
    }

    /// An empty history.
    pub fn new() -> (r: Self)
        ensures
            r.wf(),
            r@ == HistoryView::empty(),
    {
        let r = History { entries: KeyedVec::new() };
        assert(r@ =~= HistoryView::empty());
        r
    }

    /// Records that an item was activated for a query at `now`.
    pub fn record_at(&mut self, query: &str, item_id: &str, now: i64)
        requires
            old(self).wf(),
        ensures
            final(self).wf(),
            final(self)@ == recorded(old(self)@, query@, item_id@, now),
    {
        let ghost h = self@;
        let qi = match self.entries.position(query) {
            Some(i) => i,
            None => {
                self.entries.push_new(query.to_owned(), KeyedVec::new());
                self.entries.len() - 1
            },
        };
        proof {
            self.entries.lemma_wf();
        }
        let ghost m1 = self.entries.map();
        assert(self.entries.key_seq()[qi as int] == query@);
        assert(m1[query@].wf());
        assert(m1[query@].map() == if h.contains_key(query@) {
            h[query@]
        } else {
            Map::empty()
        });
        let inner = self.entries.value_mut(qi);
        match inner.position(item_id) {
            Some(j) => {
                let e = inner.value_mut(j);
                e.count = e.count.saturating_add(1);
                e.last_used = now;
            },
            None => {
                inner.push_new(item_id.to_owned(), HistoryEntry { count: 1, last_used: now });
            },
        }
        assert(self@ =~= recorded(h, query@, item_id@, now));
    }

    /// Records that an item was activated for a query, now; nothing is
    /// recorded when the system clock cannot be read as a time after the epoch.
    pub fn record(&mut self, query: &str, item_id: &str)
        requires
            old(self).wf(),
        ensures
            final(self).wf(),
            final(self)@ == old(self)@ || exists|now: i64| final(self)@ == #[trigger] recorded(
                old(self)@,
                query@,
                item_id@,
                now,
            ),
    {
        if let Some(now) = now_millis() {
            self.record_at(query, item_id, now);
        }
    }

    /// The usage score of an item for a query at `now`: 0 if it was never
    /// used for the query, at most 100.
    pub fn usage_score_at(&self, query: &str, item_id: &str, now: i64) -> (r: u32)
        requires
            self.wf(),
        ensures
            r == match entry_of(self@, query@, item_id@) {
                Some(e) => entry_score(e, now),
                None => 0,
            },
    {
        proof {
            self.entries.lemma_wf();
        }
        let inner = match self.entries.get(query) {
            Some(m) => m,
            None => return 0,
        };
        let e = match inner.get(item_id) {
            Some(e) => *e,
            None => return 0,
        };
        let diff: i128 = (now as i128) - (e.last_used as i128);
        let days: i128 = if diff <= 0 {
            0
        } else {
            diff / (DAY_MILLIS as i128)
        };
        let base: u32 = if days >= 10 {
            0
        } else {
            (10 - days) as u32
        };
        let c: u32 = if e.count < 10 {
            e.count
        } else {
            10
        };
        assert(base * c <= 100) by (nonlinear_arith)
            requires
                base <= 10,
                c <= 10,
        ;
        base * c
    }

    /// The usage score of an item for a query, now (see [`History::usage_score_at`]);
    /// 0 when the system clock cannot be read as a time after the epoch.
    pub fn usage_score(&self, query: &str, item_id: &str) -> (r: u32)
        requires
            self.wf(),
        ensures
            match entry_of(self@, query@, item_id@) {
                Some(e) => r == 0 || exists|now: i64| r == #[trigger] entry_score(e, now),
                None => r == 0,
            },
    {
        match now_millis() {
            Some(now) => self.usage_score_at(query, item_id, now),
            None => 0,
        }
    }

    /// Erases the history of an item, for every query.
    pub fn erase_item(&mut self, item_id: &str)
        requires
            old(self).wf(),
        ensures
            final(self).wf(),
            final(self)@ == old(self)@.map_values(
                |m: Map<Seq<char>, HistoryEntry>| m.remove(item_id@),
            ),
    {
        let ghost h = self@;
        let ghost keys = self.entries.key_seq();
        let ghost vals0 = self.entries.val_seq();
        proof {
            self.entries.lemma_wf();
        }
        let n = self.entries.len();
        let mut i: usize = 0;
        assert forall|j: int| 0 <= j < n implies (#[trigger] vals0[j]).wf() by {
            assert(self.entries.map().contains_key(keys[j]));
        }
        while i < n
            invariant
                self.wf(),
                n == keys.len(),
                i <= n,
                self.entries.key_seq() == keys,
                self.entries.val_seq().len() == n,
                vals0.len() == n,
                forall|j: int| 0 <= j < n ==> (#[trigger] vals0[j]).wf(),
                forall|j: int|
                    0 <= j < i ==> (#[trigger] self.entries.val_seq()[j]).map() == vals0[j].map().remove(
                        item_id@,
                    ),
                forall|j: int| i <= j < n ==> #[trigger] self.entries.val_seq()[j] == vals0[j],
            decreases n - i,
        {
            proof {
                self.entries.lemma_wf();
                assert(self.entries.val_seq()[i as int] == vals0[i as int]);
            }
            let inner = self.entries.value_mut(i);
            inner.remove(item_id);
            proof {
                self.entries.lemma_wf();
                assert forall|q: Seq<char>| #[trigger] self.entries.map().contains_key(q) implies self.entries.map()[q].wf() by {
                    let j = choose|j: int| 0 <= j < keys.len() && keys[j] == q;
                    assert(self.entries.map()[keys[j]] == self.entries.val_seq()[j]);
                }
            }
            i = i + 1;
        }
        proof {
            self.entries.lemma_wf();
            old(self).entries.lemma_wf();
            let want = h.map_values(|m: Map<Seq<char>, HistoryEntry>| m.remove(item_id@));
            assert forall|q: Seq<char>| #[trigger] self@.contains_key(q) implies self@[q] == want[q] by {
                let j = choose|j: int| 0 <= j < keys.len() && keys[j] == q;
                assert(self.entries.map()[keys[j]] == self.entries.val_seq()[j]);
                assert(old(self).entries.map()[keys[j]] == vals0[j]);
            }
            assert(self@ =~= want);
        }
    }

    /// Erases all history.
    pub fn clear(&mut self)
        ensures
            final(self).wf(),
            final(self)@ == HistoryView::empty(),
    {
        self.entries.clear();
        assert(self@ =~= HistoryView::empty());
    }

    /// All entries as (query, item id, usage), query by query.
    pub fn entries(&self) -> (r: Vec<(String, String, HistoryEntry)>)
        requires
            self.wf(),
        ensures
            forall|i: int|
                0 <= i < r@.len() ==> entry_of(self@, (#[trigger] r@[i]).0@, r@[i].1@) == Some(r@[i].2),
            forall|q: Seq<char>, k: Seq<char>|
                #[trigger] entry_of(self@, q, k) is Some ==> listed(r@, q, k),
    {
        proof {
            self.entries.lemma_wf();
        }
        let ghost keys = self.entries.key_seq();
        let n = self.entries.len();
        let mut r: Vec<(String, String, HistoryEntry)> = Vec::new();
        let mut i: usize = 0;
        while i < n
            invariant
                self.wf(),
                keys == self.entries.key_seq(),
                n == keys.len(),
                i <= n,
                forall|j: int|
                    0 <= j < r@.len() ==> entry_of(self@, (#[trigger] r@[j]).0@, r@[j].1@) == Some(
                        r@[j].2,
                    ),
                forall|j: int, kk: Seq<char>|
                    0 <= j < i && #[trigger] entry_of(self@, keys[j], kk) is Some ==> listed(
                        r@,
                        keys[j],
                        kk,
                    ),
            decreases n - i,
        {
            proof {
                self.entries.lemma_wf();
            }
            let q = self.entries.key_at(i);
            let inner = self.entries.value_at(i);
            proof {
                assert(self.entries.map().contains_key(q@));
                inner.lemma_wf();
            }
            let m = inner.len();
            let mut k: usize = 0;
            let ghost r0 = r@;
            while k < m
                invariant
                    self.wf(),
                    inner.wf(),
                    keys == self.entries.key_seq(),
                    q@ == keys[i as int],
                    self@.contains_key(q@),
                    self@[q@] == inner.map(),
                    m == inner.key_seq().len(),
                    k <= m,
                    r0.is_prefix_of(r@),
                    forall|j: int|
                        0 <= j < r@.len() ==> entry_of(self@, (#[trigger] r@[j]).0@, r@[j].1@) == Some(
                            r@[j].2,
                        ),
                    forall|jj: int| 0 <= jj < k ==> listed(r@, q@, #[trigger] inner.key_seq()[jj]),
                decreases m - k,
            {
                proof {
                    inner.lemma_wf();
                }
                let id = inner.key_at(k).clone();
                let e = *inner.value_at(k);
                let ghost before = r@;
                r.push((q.clone(), id, e));
                proof {
                    lemma_listed_push(before, r@);
                    assert(r@[before.len() as int].0@ == q@ && r@[before.len() as int].1@
                        == inner.key_seq()[k as int]);
                    assert(listed(r@, q@, inner.key_seq()[k as int]));
                    assert(r0.is_prefix_of(r@)) by {
                        assert forall|t: int| 0 <= t < r0.len() implies r0[t] == r@[t] by {
                            assert(r0[t] == before[t]);
                        }
                    }
                }
                k = k + 1;
            }
            proof {
                inner.lemma_wf();
                lemma_listed_push(r0, r@);
                assert forall|j: int, kk: Seq<char>|
                    0 <= j < i + 1 && #[trigger] entry_of(self@, keys[j], kk) is Some implies listed(
                        r@,
                        keys[j],
                        kk,
                    ) by {
                    if j == i {
                        let jj = choose|jj: int|
                            0 <= jj < inner.key_seq().len() && inner.key_seq()[jj] == kk;
                        assert(listed(r@, q@, inner.key_seq()[jj]));
                    } else {
                        assert(listed(r0, keys[j], kk));
                    }
                }
            }
            i = i + 1;
        }
        proof {
            self.entries.lemma_wf();
            assert forall|q: Seq<char>, k: Seq<char>| #[trigger] entry_of(self@, q, k) is Some implies listed(
                r@,
                q,
                k,
            ) by {
                let j = choose|j: int| 0 <= j < n && keys[j] == q;
                assert(entry_of(self@, keys[j], k) is Some);
            }
        }
        r
    }

    /// A history holding the given entries, as read from a file; a later
    /// entry for the same query and item replaces an earlier one.
    pub fn from_entries(entries: Vec<(String, String, HistoryEntry)>) -> (r: Self)
        ensures
            r.wf(),
            forall|i: int|
                0 <= i < entries@.len() && (forall|j: int|
                    i < j < entries@.len() ==> !((#[trigger] entries@[j]).0@ == entries@[i].0@
                        && entries@[j].1@ == entries@[i].1@)) ==> entry_of(
                    r@,
                    (#[trigger] entries@[i]).0@,
                    entries@[i].1@,
                ) == Some(entries@[i].2),
            forall|q: Seq<char>, k: Seq<char>| #[trigger] entry_of(r@, q, k) is Some ==> listed(entries@, q, k),
    {
        let mut h = History::new();
        let mut i: usize = 0;
        while i < entries.len()
            invariant
                h.wf(),
                i <= entries@.len(),
                forall|a: int|
                    0 <= a < i && (forall|j: int|
                        a < j < i ==> !((#[trigger] entries@[j]).0@ == entries@[a].0@
                            && entries@[j].1@ == entries@[a].1@)) ==> entry_of(
                        h@,
                        (#[trigger] entries@[a]).0@,
                        entries@[a].1@,
                    ) == Some(entries@[a].2),
                forall|q: Seq<char>, k: Seq<char>|
                    #[trigger] entry_of(h@, q, k) is Some ==> listed(entries@.take(i as int), q, k),
            decreases entries@.len() - i,
        {
            let ghost before = h@;
            h.put_entry(entries[i].0.as_str(), entries[i].1.as_str(), entries[i].2);
            proof {
                lemma_listed_push(entries@.take(i as int), entries@.take(i + 1));
                assert forall|q: Seq<char>, k: Seq<char>| #[trigger] entry_of(h@, q, k) is Some implies listed(
                    entries@.take(i + 1),
                    q,
                    k,
                ) by {
                    if q == entries@[i as int].0@ && k == entries@[i as int].1@ {
                        assert(entries@.take(i + 1)[i as int] == entries@[i as int]);
                    } else {
                        assert(entry_of(before, q, k) is Some);
                    }
                }
                assert(entries@.take(i + 1)[i as int] == entries@[i as int]);
                assert(listed(entries@.take(i + 1), entries@[i as int].0@, entries@[i as int].1@));
                assert forall|a: int|
                    0 <= a < i + 1 && (forall|j: int|
                        a < j < i + 1 ==> !((#[trigger] entries@[j]).0@ == entries@[a].0@
                            && entries@[j].1@ == entries@[a].1@)) implies entry_of(
                        h@,
                        (#[trigger] entries@[a]).0@,
                        entries@[a].1@,
                    ) == Some(entries@[a].2) by {
                    if a < i {
                        assert(!(entries@[i as int].0@ == entries@[a].0@ && entries@[i as int].1@
                            == entries@[a].1@));
                    }
                }
            }
            i = i + 1;
        }
        assert(entries@.take(i as int) =~= entries@);
        h
    }

    /// Sets the entry of an item for a query.
    fn put_entry(&mut self, query: &str, item_id: &str, e: HistoryEntry)
        requires
            old(self).wf(),
        ensures
            final(self).wf(),
            final(self)@ == old(self)@.insert(
                query@,
                (if old(self)@.contains_key(query@) {
                    old(self)@[query@]
                } else {
                    Map::empty()
                }).insert(item_id@, e),
            ),
    {
        let ghost h = self@;
        let qi = match self.entries.position(query) {
            Some(i) => i,
            None => {
                self.entries.push_new(query.to_owned(), KeyedVec::new());
                self.entries.len() - 1
            },
        };
        proof {
            self.entries.lemma_wf();
        }
        let ghost m1 = self.entries.map();
        assert(self.entries.key_seq()[qi as int] == query@);
        assert(m1[query@].wf());
        let inner = self.entries.value_mut(qi);
        inner.insert(item_id.to_owned(), e);
        assert(self@ =~= h.insert(
            query@,
            (if h.contains_key(query@) {
                h[query@]
            } else {
                Map::empty()
            }).insert(item_id@, e),
        ));
    }
}

/// Path of the history file, given the values of `XDG_DATA_HOME` and `HOME`
/// (`None` where unset).
pub fn default_history_path(xdg_data_home: Option<&str>, home: Option<&str>) -> (r: String)
    ensures
        r@ == data_file(opt_str_view(xdg_data_home), opt_str_view(home), "history.json"@),
{
    let r = data_file_path(xdg_data_home, home, "history.json");
    proof {
        reveal_strlit("history.json");
    }
    r
}

} // verus!
