//! The watcher registry: one-shot and persistent watcher sets indexed by
//! path and kind, and the computation of which watchers an event fires.
//!
//! Callbacks are held by opaque `u64` handles; the embedding application
//! maps handles to callables and invokes them off the I/O path. One-shot
//! entries are removed as they fire; persistent entries stay until they
//! are removed explicitly; recursive persistent entries fire on the path
//! itself and on every descendant.

use vstd::prelude::*;

use crate::constants::{EventType, KeeperState};
use crate::error::ZKError;
use crate::ZKResult;

verus! {

/// A notification as the application sees it.
#[derive(Debug, Clone, PartialEq, Eq)]
pub struct WatchedEvent {
    pub keep_state: KeeperState,
    pub event_type: EventType,
    pub path: String,
}

/// A callback an application registers for notifications.
pub trait Watcher: Send {
    fn process(&self, event: &WatchedEvent) -> ZKResult<()>;
}

/// The watchers of one path, one registry kind.
#[derive(Debug, Clone, PartialEq, Eq)]
pub struct WatchEntry {
    pub path: String,
    pub ids: Vec<u64>,
}

/// The view of one entry.
pub ghost struct WatchEntryV {
    pub path: Seq<char>,
    pub ids: Seq<u64>,
}

impl View for WatchEntry {
    type V = WatchEntryV;

    open spec fn view(&self) -> WatchEntryV {
        WatchEntryV { path: self.path@, ids: self.ids@ }
    }
}

/// The views of a table of entries.
pub open spec fn tab_v(s: Seq<WatchEntry>) -> Seq<WatchEntryV> {
    Seq::new(s.len(), |i: int| s[i]@)
}

/// Whether some entry is for `p`.
pub open spec fn has_path(t: Seq<WatchEntryV>, p: Seq<char>) -> bool
    decreases t.len(),
{
    if t.len() == 0 {
        false
    } else if t[0].path == p {
        true
    } else {
        has_path(t.drop_first(), p)
    }
}

/// The ids registered for `p`: those of the first entry for `p`, or none.
pub open spec fn lookup(t: Seq<WatchEntryV>, p: Seq<char>) -> Seq<u64>
    decreases t.len(),
{
    if t.len() == 0 {
        Seq::empty()
    } else if t[0].path == p {
        t[0].ids
    } else {
        lookup(t.drop_first(), p)
    }
}

/// The table without any entry for `p`, order kept.
pub open spec fn remove_path(t: Seq<WatchEntryV>, p: Seq<char>) -> Seq<WatchEntryV>
    decreases t.len(),
{
    if t.len() == 0 {
        Seq::empty()
    } else if t[0].path == p {
        remove_path(t.drop_first(), p)
    } else {
        seq![t[0]] + remove_path(t.drop_first(), p)
    }
}

/// Every id in the table, in table order.
pub open spec fn all_ids(t: Seq<WatchEntryV>) -> Seq<u64>
    decreases t.len(),
{
    if t.len() == 0 {
        Seq::empty()
    } else {
        t[0].ids + all_ids(t.drop_first())
    }
}

/// Whether a recursive watcher registered at `a` fires for an event at
/// `p`: the paths are equal, or `p` goes on below `a`. The root `/`
/// matches every path.
pub open spec fn rec_match(a: Seq<char>, p: Seq<char>) -> bool {
    ||| p == a
    ||| (p.len() > a.len() && p.take(a.len() as int) == a && (a == seq!['/'] || p[a.len() as int]
        == '/'))
}

/// The ids of every entry whose path matches `p` recursively, in table
/// order.
pub open spec fn rec_ids(t: Seq<WatchEntryV>, p: Seq<char>) -> Seq<u64>
    decreases t.len(),
{
    if t.len() == 0 {
        Seq::empty()
    } else if rec_match(t[0].path, p) {
        t[0].ids + rec_ids(t.drop_first(), p)
    } else {
        rec_ids(t.drop_first(), p)
    }
}

/// A table is well formed when no two entries share a path.
pub open spec fn tab_wf(t: Seq<WatchEntryV>) -> bool {
    forall|i: int, j: int| 0 <= i < j < t.len() ==> (#[trigger] t[i]).path != (#[trigger] t[j]).path
}

/// What registration leaves in a table: every other path kept, and the
/// id appended to the path's ids unless it is already there.
pub open spec fn reg(t: Seq<WatchEntryV>, p: Seq<char>, id: u64) -> Seq<WatchEntryV> {
    remove_path(t, p) + seq![
        WatchEntryV {
            path: p,
            ids: if lookup(t, p).contains(id) {
                lookup(t, p)
            } else {
                lookup(t, p).push(id)
            },
        },
    ]
}

/// Looking a path up in a table with no entry for it finds nothing.
pub proof fn lemma_lookup_absent(t: Seq<WatchEntryV>, p: Seq<char>)
    requires
        !has_path(t, p),
    ensures
        lookup(t, p) == Seq::<u64>::empty(),
    decreases t.len(),
{
    if t.len() > 0 {
        lemma_lookup_absent(t.drop_first(), p);
    }
}

/// Removing a path removes exactly that path: the result has no entry
/// for it, and every other path keeps its ids.
pub proof fn lemma_remove_path(t: Seq<WatchEntryV>, p: Seq<char>, q: Seq<char>)
    ensures
        !has_path(remove_path(t, p), p),
        q != p ==> lookup(remove_path(t, p), q) == lookup(t, q),
        q != p ==> has_path(remove_path(t, p), q) == has_path(t, q),
    decreases t.len(),
{
    if t.len() > 0 {
        lemma_remove_path(t.drop_first(), p, q);
        if t[0].path == p {
        } else {
            let r = seq![t[0]] + remove_path(t.drop_first(), p);
            assert(r[0] == t[0]);
            assert(r.drop_first() =~= remove_path(t.drop_first(), p));
        }
    }
}

/// Removing a path keeps a table well formed.
pub proof fn lemma_remove_path_wf(t: Seq<WatchEntryV>, p: Seq<char>)
    requires
        tab_wf(t),
    ensures
        tab_wf(remove_path(t, p)),
        forall|i: int|
            0 <= i < remove_path(t, p).len() ==> exists|j: int|
                0 <= j < t.len() && (#[trigger] remove_path(t, p)[i]) == t[j],
    decreases t.len(),
{
    if t.len() > 0 {
        let d = t.drop_first();
        assert forall|i: int, j: int| 0 <= i < j < d.len() implies (#[trigger] d[i]).path != (
        #[trigger] d[j]).path by {
            assert(d[i] == t[i + 1]);
            assert(d[j] == t[j + 1]);
        }
        lemma_remove_path_wf(d, p);
        if t[0].path == p {
            assert forall|i: int|
                0 <= i < remove_path(t, p).len() implies exists|j: int|
                    0 <= j < t.len() && (#[trigger] remove_path(t, p)[i]) == t[j] by {
                let e = remove_path(d, p)[i];
                let j0 = choose|j0: int| 0 <= j0 < d.len() && remove_path(d, p)[i] == d[j0];
                assert(t[j0 + 1] == d[j0]);
            }
        } else {
            let r = seq![t[0]] + remove_path(d, p);
            assert forall|i: int|
                0 <= i < r.len() implies exists|j: int| 0 <= j < t.len() && (#[trigger] r[i])
                    == t[j] by {
                if i == 0 {
                    assert(r[0] == t[0]);
                } else {
                    let j0 = choose|j0: int| 0 <= j0 < d.len() && remove_path(d, p)[i - 1] == d[j0];
                    assert(r[i] == remove_path(d, p)[i - 1]);
                    assert(t[j0 + 1] == d[j0]);
                }
            }
            assert forall|i: int, j: int| 0 <= i < j < r.len() implies (#[trigger] r[i]).path != (
            #[trigger] r[j]).path by {
                if i == 0 {
                    let j0 = choose|j0: int| 0 <= j0 < d.len() && remove_path(d, p)[j - 1] == d[j0];
                    assert(r[j] == remove_path(d, p)[j - 1]);
                    assert(d[j0] == t[j0 + 1]);
                    assert(t[0].path != t[j0 + 1].path);
                } else {
                    assert(r[i] == remove_path(d, p)[i - 1]);
                    assert(r[j] == remove_path(d, p)[j - 1]);
                }
            }
        }
    }
}

/// Looking up in a table extended by one entry: an earlier entry for the
/// path wins, else the new entry answers for its path.
pub proof fn lemma_lookup_append(t: Seq<WatchEntryV>, e: WatchEntryV, q: Seq<char>)
    ensures
        has_path(t, q) ==> lookup(t + seq![e], q) == lookup(t, q),
        !has_path(t, q) && e.path == q ==> lookup(t + seq![e], q) == e.ids,
        !has_path(t, q) && e.path != q ==> lookup(t + seq![e], q) == Seq::<u64>::empty(),
        has_path(t + seq![e], q) == (has_path(t, q) || e.path == q),
    decreases t.len(),
{
    if t.len() == 0 {
        assert(t + seq![e] =~= seq![e]);
        assert((t + seq![e])[0] == e);
        assert((t + seq![e]).drop_first() =~= Seq::<WatchEntryV>::empty());
        assert(lookup(Seq::<WatchEntryV>::empty(), q) == Seq::<u64>::empty());
        assert(!has_path(Seq::<WatchEntryV>::empty(), q));
    } else {
        lemma_lookup_append(t.drop_first(), e, q);
        let r = t + seq![e];
        assert(r[0] == t[0]);
        assert(r.drop_first() =~= t.drop_first() + seq![e]);
    }
}

/// Registering the same watcher twice is the same as registering it
/// once.
pub proof fn lemma_reg_idempotent(t: Seq<WatchEntryV>, p: Seq<char>, id: u64)
    ensures
        reg(reg(t, p, id), p, id) == reg(t, p, id),
{
    let t1 = reg(t, p, id);
    let ids1 = if lookup(t, p).contains(id) {
        lookup(t, p)
    } else {
        lookup(t, p).push(id)
    };
    let e = WatchEntryV { path: p, ids: ids1 };
    lemma_remove_path(t, p, p);
    lemma_lookup_absent(remove_path(t, p), p);
    lemma_lookup_append(remove_path(t, p), e, p);
    assert(lookup(t1, p) == ids1);
    assert(ids1.contains(id)) by {
        if !lookup(t, p).contains(id) {
            assert(ids1.last() == id);
        }
    }
    assert(remove_path(t1, p) =~= remove_path(remove_path(t, p), p)) by {
        lemma_remove_path_append(remove_path(t, p), e, p);
    }
    lemma_remove_path_idempotent(t, p);
    assert(reg(t1, p, id) =~= t1);
}

/// Removing a path from a table extended by one entry for that path
/// removes the entry too.
pub proof fn lemma_remove_path_append(t: Seq<WatchEntryV>, e: WatchEntryV, p: Seq<char>)
    requires
        e.path == p,
    ensures
        remove_path(t + seq![e], p) == remove_path(t, p),
    decreases t.len(),
{
    if t.len() == 0 {
        assert(t + seq![e] =~= seq![e]);
        assert((t + seq![e])[0] == e);
        assert((t + seq![e]).drop_first() =~= Seq::<WatchEntryV>::empty());
        assert(remove_path(Seq::<WatchEntryV>::empty(), p) == Seq::<WatchEntryV>::empty());
        assert(remove_path(t, p) =~= Seq::<WatchEntryV>::empty());
    } else {
        lemma_remove_path_append(t.drop_first(), e, p);
        let r = t + seq![e];
        assert(r[0] == t[0]);
        assert(r.drop_first() =~= t.drop_first() + seq![e]);
    }
}

/// Removing a path twice removes no more than once.
pub proof fn lemma_remove_path_idempotent(t: Seq<WatchEntryV>, p: Seq<char>)
    ensures
        remove_path(remove_path(t, p), p) == remove_path(t, p),
    decreases t.len(),
{
    if t.len() > 0 {
        lemma_remove_path_idempotent(t.drop_first(), p);
        if t[0].path == p {
        } else {
            let r = seq![t[0]] + remove_path(t.drop_first(), p);
            assert(r[0] == t[0]);
            assert(r.drop_first() =~= remove_path(t.drop_first(), p));
            assert(remove_path(r, p) =~= seq![t[0]] + remove_path(remove_path(t.drop_first(), p), p));
        }
    }
}

/// A path is in a table exactly when some entry carries it.
pub proof fn lemma_has_path_exists(t: Seq<WatchEntryV>, q: Seq<char>)
    ensures
        has_path(t, q) <==> exists|k: int| 0 <= k < t.len() && (#[trigger] t[k]).path == q,
    decreases t.len(),
{
    if t.len() > 0 {
        let d = t.drop_first();
        lemma_has_path_exists(d, q);
        if t[0].path == q {
        } else {
            if has_path(d, q) {
                let k = choose|k: int| 0 <= k < d.len() && (#[trigger] d[k]).path == q;
                assert(t[k + 1] == d[k]);
            }
            if exists|k: int| 0 <= k < t.len() && (#[trigger] t[k]).path == q {
                let k = choose|k: int| 0 <= k < t.len() && (#[trigger] t[k]).path == q;
                assert(k != 0);
                assert(d[k - 1] == t[k]);
            }
        }
    }
}

/// One more entry extends each table function by that entry's
/// contribution.
pub proof fn lemma_table_snoc(t: Seq<WatchEntryV>, p: Seq<char>, k: int)
    requires
        0 <= k < t.len(),
    ensures
        remove_path(t.take(k + 1), p) == remove_path(t.take(k), p) + (if t[k].path == p {
            Seq::<WatchEntryV>::empty()
        } else {
            seq![t[k]]
        }),
        has_path(t.take(k + 1), p) == (has_path(t.take(k), p) || t[k].path == p),
        lookup(t.take(k + 1), p) == (if has_path(t.take(k), p) {
            lookup(t.take(k), p)
        } else if t[k].path == p {
            t[k].ids
        } else {
            Seq::<u64>::empty()
        }),
        all_ids(t.take(k + 1)) == all_ids(t.take(k)) + t[k].ids,
        rec_ids(t.take(k + 1), p) == rec_ids(t.take(k), p) + (if rec_match(t[k].path, p) {
            t[k].ids
        } else {
            Seq::<u64>::empty()
        }),
    decreases k,
{
    if k == 0 {
        let u = t.take(1);
        assert(u.len() == 1);
        assert(u[0] == t[0]);
        assert(u.drop_first() =~= Seq::<WatchEntryV>::empty());
        assert(remove_path(Seq::<WatchEntryV>::empty(), p) == Seq::<WatchEntryV>::empty());
        assert(!has_path(Seq::<WatchEntryV>::empty(), p));
        assert(lookup(Seq::<WatchEntryV>::empty(), p) == Seq::<u64>::empty());
        assert(all_ids(Seq::<WatchEntryV>::empty()) == Seq::<u64>::empty());
        assert(rec_ids(Seq::<WatchEntryV>::empty(), p) == Seq::<u64>::empty());
        assert(t.take(0) =~= Seq::<WatchEntryV>::empty());
        if t[0].path == p {
            assert(remove_path(u, p) =~= remove_path(t.take(0), p));
        } else {
            assert(remove_path(u, p) =~= remove_path(t.take(0), p) + seq![t[0]]);
        }
        assert(all_ids(u) =~= all_ids(t.take(0)) + t[0].ids);
        if rec_match(t[0].path, p) {
            assert(rec_ids(u, p) =~= rec_ids(t.take(0), p) + t[0].ids);
        } else {
            assert(rec_ids(u, p) =~= rec_ids(t.take(0), p));
        }
    } else {
        let d = t.drop_first();
        lemma_table_snoc(d, p, k - 1);
        let a = t.take(k + 1);
        let b = t.take(k);
        assert(a.drop_first() =~= d.take(k));
        assert(b.drop_first() =~= d.take(k - 1));
        assert(a[0] == t[0]);
        assert(b[0] == t[0]);
        assert(d[k - 1] == t[k]);
        if t[0].path == p {
        } else {
            assert(seq![t[0]] + (remove_path(d.take(k - 1), p) + (if t[k].path == p {
                Seq::<WatchEntryV>::empty()
            } else {
                seq![t[k]]
            })) =~= (seq![t[0]] + remove_path(d.take(k - 1), p)) + (if t[k].path == p {
                Seq::<WatchEntryV>::empty()
            } else {
                seq![t[k]]
            }));
        }
        assert(t[0].ids + (all_ids(d.take(k - 1)) + t[k].ids) =~= (t[0].ids + all_ids(
            d.take(k - 1),
        )) + t[k].ids);
        if rec_match(t[0].path, p) {
            assert(t[0].ids + (rec_ids(d.take(k - 1), p) + (if rec_match(t[k].path, p) {
                t[k].ids
            } else {
                Seq::<u64>::empty()
            })) =~= (t[0].ids + rec_ids(d.take(k - 1), p)) + (if rec_match(t[k].path, p) {
                t[k].ids
            } else {
                Seq::<u64>::empty()
            }));
        }
    }
}

/// A watcher a lookup finds sits in some entry for that path.
pub proof fn lemma_lookup_contains_exists(t: Seq<WatchEntryV>, p: Seq<char>, id: u64)
    requires
        lookup(t, p).contains(id),
    ensures
        exists|k: int| 0 <= k < t.len() && (#[trigger] t[k]).path == p && t[k].ids.contains(id),
    decreases t.len(),
{
    if t.len() > 0 {
        if t[0].path == p {
            assert(t[0].path == p && t[0].ids.contains(id));
        } else {
            lemma_lookup_contains_exists(t.drop_first(), p, id);
            let k = choose|k: int|
                0 <= k < t.drop_first().len() && (#[trigger] t.drop_first()[k]).path == p
                    && t.drop_first()[k].ids.contains(id);
            assert(t[k + 1] == t.drop_first()[k]);
        }
    }
}

/// A recursive watcher registered at `a` is in the matched set of every
/// path that equals `a` or goes on below it.
pub proof fn lemma_recursive_watcher_fires(t: Seq<WatchEntryV>, a: Seq<char>, p: Seq<char>, id: u64)
    requires
        lookup(t, a).contains(id),
        rec_match(a, p),
    ensures
        rec_ids(t, p).contains(id),
{
    lemma_lookup_contains_exists(t, a, id);
    lemma_rec_ids_contains(t, p, id);
}

/// A watcher just registered at `a` answers lookups at `a`, and where
/// `p` equals `a` or goes on below it, it is in `p`'s recursively
/// matched set: registering a recursive watcher at an ancestor makes it
/// fire on every event at or below that ancestor.
pub proof fn lemma_registered_recursive_watcher_fires(
    t: Seq<WatchEntryV>,
    a: Seq<char>,
    p: Seq<char>,
    id: u64,
)
    requires
        rec_match(a, p),
    ensures
        lookup(reg(t, a, id), a).contains(id),
        rec_ids(reg(t, a, id), p).contains(id),
{
    let ids = if lookup(t, a).contains(id) {
        lookup(t, a)
    } else {
        lookup(t, a).push(id)
    };
    let e = WatchEntryV { path: a, ids };
    lemma_remove_path(t, a, a);
    lemma_lookup_absent(remove_path(t, a), a);
    lemma_lookup_append(remove_path(t, a), e, a);
    assert(lookup(reg(t, a, id), a) == ids);
    assert(ids.contains(id)) by {
        if !lookup(t, a).contains(id) {
            assert(ids.last() == id);
        }
    }
    lemma_recursive_watcher_fires(reg(t, a, id), a, p, id);
}

/// A recursive watcher registered at the event's path or an ancestor of
/// it is among the fired handles of any node event.
pub proof fn lemma_fired_includes_recursive(
    pre: WatcherManager,
    post: WatcherManager,
    e: WatchedEvent,
    r: Seq<u64>,
    a: Seq<char>,
    id: u64,
)
    requires
        WatcherManager::find_spec(pre, post, e, r),
        e.event_type is NodeCreated || e.event_type is NodeDataChanged || e.event_type
            is NodeChildrenChanged || e.event_type is NodeDeleted,
        lookup(pre.persistent_recursive(), a).contains(id),
        rec_match(a, e.path@),
    ensures
        r.contains(id),
{
    lemma_recursive_watcher_fires(pre.persistent_recursive(), a, e.path@, id);
    let rec = rec_ids(pre.persistent_recursive(), e.path@);
    let w = choose|w: int| 0 <= w < rec.len() && rec[w] == id;
    assert(r[r.len() - rec.len() + w] == id);
}

/// A one-shot data watcher fires at most once: once a data change at a
/// path has drained it, a second data change at the same path does not
/// hand it out again, unless it also stands in a persistent set.
pub proof fn lemma_data_watcher_fires_once(
    m0: WatcherManager,
    m1: WatcherManager,
    m2: WatcherManager,
    e: WatchedEvent,
    r1: Seq<u64>,
    r2: Seq<u64>,
    id: u64,
)
    requires
        e.event_type is NodeDataChanged,
        WatcherManager::find_spec(m0, m1, e, r1),
        WatcherManager::find_spec(m1, m2, e, r2),
        !lookup(m0.persistent(), e.path@).contains(id),
        !rec_ids(m0.persistent_recursive(), e.path@).contains(id),
    ensures
        !r2.contains(id),
{
    let p = e.path@;
    lemma_remove_path(m0.data(), p, p);
    lemma_lookup_absent(remove_path(m0.data(), p), p);
    lemma_remove_path(m0.exists_w(), p, p);
    lemma_lookup_absent(remove_path(m0.exists_w(), p), p);
    let c = lookup(m1.persistent(), p);
    let d = rec_ids(m1.persistent_recursive(), p);
    assert(r2 =~= c + d);
    if r2.contains(id) {
        let w = choose|w: int| 0 <= w < r2.len() && r2[w] == id;
        if w < c.len() {
            assert(c[w] == id);
        } else {
            assert(d[w - c.len()] == id);
        }
    }
}

/// A watcher is in the recursively matched set exactly when some
/// matching entry holds it.
pub proof fn lemma_rec_ids_contains(t: Seq<WatchEntryV>, p: Seq<char>, id: u64)
    ensures
        rec_ids(t, p).contains(id) <==> exists|k: int|
            0 <= k < t.len() && rec_match((#[trigger] t[k]).path, p) && t[k].ids.contains(id),
    decreases t.len(),
{
    if t.len() == 0 {
    } else {
        let d = t.drop_first();
        lemma_rec_ids_contains(d, p, id);
        if rec_match(t[0].path, p) {
            if t[0].ids.contains(id) || rec_ids(d, p).contains(id) {
                if t[0].ids.contains(id) {
                    let w = choose|w: int| 0 <= w < t[0].ids.len() && t[0].ids[w] == id;
                    assert((t[0].ids + rec_ids(d, p))[w] == id);
                    assert(rec_ids(t, p).contains(id));
                } else {
                    let w = choose|w: int| 0 <= w < rec_ids(d, p).len() && rec_ids(d, p)[w] == id;
                    assert((t[0].ids + rec_ids(d, p))[t[0].ids.len() + w] == id);
                    assert(rec_ids(t, p).contains(id));
                }
            }
            if rec_ids(t, p).contains(id) {
                let w = choose|w: int| 0 <= w < rec_ids(t, p).len() && rec_ids(t, p)[w] == id;
                if w < t[0].ids.len() {
                    assert(t[0].ids.contains(id));
                } else {
                    assert(rec_ids(d, p)[w - t[0].ids.len()] == id);
                    assert(rec_ids(d, p).contains(id));
                }
            }
            assert forall|k: int|
                0 <= k < d.len() && rec_match((#[trigger] d[k]).path, p) && d[k].ids.contains(id)
                    implies exists|m: int|
                    0 <= m < t.len() && rec_match((#[trigger] t[m]).path, p) && t[m].ids.contains(
                        id,
                    ) by {
                assert(t[k + 1] == d[k]);
            }
            if exists|k: int|
                0 <= k < t.len() && rec_match((#[trigger] t[k]).path, p) && t[k].ids.contains(id) {
                let k = choose|k: int|
                    0 <= k < t.len() && rec_match((#[trigger] t[k]).path, p) && t[k].ids.contains(
                        id,
                    );
                if k > 0 {
                    assert(d[k - 1] == t[k]);
                }
            }
        } else {
            assert forall|k: int|
                0 <= k < d.len() && rec_match((#[trigger] d[k]).path, p) && d[k].ids.contains(id)
                    implies exists|m: int|
                    0 <= m < t.len() && rec_match((#[trigger] t[m]).path, p) && t[m].ids.contains(
                        id,
                    ) by {
                assert(t[k + 1] == d[k]);
            }
            if exists|k: int|
                0 <= k < t.len() && rec_match((#[trigger] t[k]).path, p) && t[k].ids.contains(id) {
                let k = choose|k: int|
                    0 <= k < t.len() && rec_match((#[trigger] t[k]).path, p) && t[k].ids.contains(
                        id,
                    );
                assert(k != 0);
                assert(d[k - 1] == t[k]);
            }
        }
    }
}

/// A copy of a vector of ids.
fn clone_ids(v: &Vec<u64>) -> (r: Vec<u64>)
    ensures
        r@ == v@,
{
    let mut r: Vec<u64> = Vec::new();
    let mut k: usize = 0;
    while k < v.len()
        invariant
            k <= v@.len(),
            r@ =~= v@.take(k as int),
        decreases v@.len() - k,
    {
        r.push(v[k]);
        proof {
            assert(r@ =~= v@.take(k as int + 1));
        }
        k += 1;
    }
    proof {
        assert(v@.take(v@.len() as int) =~= v@);
    }
    r
}

/// A copy of one entry.
fn clone_entry(e: &WatchEntry) -> (r: WatchEntry)
    ensures
        r@ == e@,
{
    WatchEntry { path: e.path.clone(), ids: clone_ids(&e.ids) }
}

/// Whether `v` holds `x`.
fn vec_contains_u64(v: &Vec<u64>, x: u64) -> (b: bool)
    ensures
        b == v@.contains(x),
{
    let mut k: usize = 0;
    while k < v.len()
        invariant
            k <= v@.len(),
            forall|j: int| 0 <= j < k ==> v@[j] != x,
        decreases v@.len() - k,
    {
        if v[k] == x {
            return true;
        }
        k += 1;
    }
    false
}

/// Whether a recursive watcher at `a` fires for an event at `p`.
#[verifier::loop_isolation(false)]
fn rec_match_str(a: &String, p: &String) -> (b: bool)
    ensures
        b == rec_match(a@, p@),
{
    if a.eq(p) {
        return true;
    }
    let an = a.as_str().unicode_len();
    let pn = p.as_str().unicode_len();
    if pn <= an {
        return false;
    }
    let mut k: usize = 0;
    while k < an
        invariant
            k <= an,
            forall|j: int| 0 <= j < k ==> a@[j] == p@[j],
        decreases an - k,
    {
        if a.as_str().get_char(k) != p.as_str().get_char(k) {
            proof {
                assert(p@.take(an as int)[k as int] != a@[k as int]);
            }
            return false;
        }
        k += 1;
    }
    proof {
        assert(p@.take(an as int) =~= a@);
    }
    if an == 1 && a.as_str().get_char(0) == '/' {
        proof {
            assert(a@ =~= seq!['/']);
        }
        return true;
    }
    proof {
        assert(a@ != seq!['/']) by {
            if a@ == seq!['/'] {
                assert(a@[0] == '/');
            }
        }
    }
    if p.as_str().get_char(an) == '/' {
        true
    } else {
        false
    }
}

/// The five registry tables, keyed by path, plus the reset policy flag.
#[derive(Debug)]
pub struct WatcherManager {
    disable_auto_watch_reset: bool,
    data_watches: Vec<WatchEntry>,
    exists_watches: Vec<WatchEntry>,
    child_watches: Vec<WatchEntry>,
    persistent_watches: Vec<WatchEntry>,
    persistent_recursive_watches: Vec<WatchEntry>,
}

impl WatcherManager {
    /// The one-shot data watchers.
    pub closed spec fn data(self) -> Seq<WatchEntryV> {
        tab_v(self.data_watches@)
    }

    /// The one-shot exists watchers.
    pub closed spec fn exists_w(self) -> Seq<WatchEntryV> {
        tab_v(self.exists_watches@)
    }

    /// The one-shot child watchers.
    pub closed spec fn child(self) -> Seq<WatchEntryV> {
        tab_v(self.child_watches@)
    }

    /// The persistent watchers.
    pub closed spec fn persistent(self) -> Seq<WatchEntryV> {
        tab_v(self.persistent_watches@)
    }

    /// The persistent recursive watchers.
    pub closed spec fn persistent_recursive(self) -> Seq<WatchEntryV> {
        tab_v(self.persistent_recursive_watches@)
    }

    /// Whether one-shot watchers are dropped on a connection-state event
    /// away from a synced connection.
    pub closed spec fn auto_reset_disabled(self) -> bool {
        self.disable_auto_watch_reset
    }

    /// Every table holds at most one entry per path.
    pub closed spec fn wf(self) -> bool {
        &&& tab_wf(self.data())
        &&& tab_wf(self.exists_w())
        &&& tab_wf(self.child())
        &&& tab_wf(self.persistent())
        &&& tab_wf(self.persistent_recursive())
    }

    /// An empty registry.
    pub fn new(disable_auto_watch_reset: bool) -> (r: WatcherManager)
        ensures
            r.wf(),
            r.auto_reset_disabled() == disable_auto_watch_reset,
            r.data() == Seq::<WatchEntryV>::empty(),
            r.exists_w() == Seq::<WatchEntryV>::empty(),
            r.child() == Seq::<WatchEntryV>::empty(),
            r.persistent() == Seq::<WatchEntryV>::empty(),
            r.persistent_recursive() == Seq::<WatchEntryV>::empty(),
    {
        let r = WatcherManager {
            disable_auto_watch_reset,
            data_watches: Vec::new(),
            exists_watches: Vec::new(),
            child_watches: Vec::new(),
            persistent_watches: Vec::new(),
            persistent_recursive_watches: Vec::new(),
        };
        proof {
            assert(r.data() =~= Seq::<WatchEntryV>::empty());
            assert(r.exists_w() =~= Seq::<WatchEntryV>::empty());
            assert(r.child() =~= Seq::<WatchEntryV>::empty());
            assert(r.persistent() =~= Seq::<WatchEntryV>::empty());
            assert(r.persistent_recursive() =~= Seq::<WatchEntryV>::empty());
        }
        r
    }

    /// Adds `id` under `path` in one table, collapsing duplicates.
    #[verifier::loop_isolation(false)]
    fn register_watcher(watches: &mut Vec<WatchEntry>, path: String, id: u64)
        requires
            tab_wf(tab_v(old(watches)@)),
        ensures
            tab_v(final(watches)@) == reg(tab_v(old(watches)@), path@, id),
            tab_wf(tab_v(final(watches)@)),
    {
        let ghost t0 = tab_v(watches@);
        let mut out: Vec<WatchEntry> = Vec::new();
        let mut ids: Vec<u64> = Vec::new();
        let mut found = false;
        let mut k: usize = 0;
        proof {
            assert(t0.take(0) =~= Seq::<WatchEntryV>::empty());
            assert(tab_v(out@) =~= Seq::<WatchEntryV>::empty());
        }
        while k < watches.len()
            invariant
                k <= watches@.len(),
                t0 == tab_v(watches@),
                tab_v(out@) == remove_path(t0.take(k as int), path@),
                found == has_path(t0.take(k as int), path@),
                ids@ == lookup(t0.take(k as int), path@),
            decreases watches@.len() - k,
        {
            proof {
                assert(t0[k as int] == watches@[k as int]@);
                lemma_table_snoc(t0, path@, k as int);
                if !found {
                    lemma_lookup_absent(t0.take(k as int), path@);
                }
            }
            let entry = &watches[k];
            if entry.path.eq(&path) {
                if !found {
                    found = true;
                    ids = clone_ids(&entry.ids);
                }
            } else {
                let ghost prev = tab_v(out@);
                out.push(clone_entry(entry));
                proof {
                    assert(tab_v(out@) =~= prev + seq![t0[k as int]]);
                }
            }
            k += 1;
        }
        proof {
            assert(t0.take(t0.len() as int) =~= t0);
        }
        if !vec_contains_u64(&ids, id) {
            ids.push(id);
        }
        let ghost before_entry = tab_v(out@);
        out.push(WatchEntry { path, ids });
        proof {
            assert(tab_v(out@) =~= before_entry + seq![out@[out@.len() - 1]@]);
            assert(tab_v(out@) =~= reg(t0, out@[out@.len() - 1]@.path, id));
            lemma_remove_path_wf(t0, out@[out@.len() - 1]@.path);
            lemma_remove_path(t0, out@[out@.len() - 1]@.path, out@[out@.len() - 1]@.path);
            lemma_has_path_exists(
                remove_path(t0, out@[out@.len() - 1]@.path),
                out@[out@.len() - 1]@.path,
            );
            assert(tab_wf(tab_v(out@)));
        }
        *watches = out;
    }

    /// Registers a one-shot data watcher.
    pub fn register_data_watcher(&mut self, path: String, id: u64) -> (r: ZKResult<()>)
        requires
            old(self).wf(),
        ensures
            r is Ok,
            final(self).wf(),
            final(self).data() == reg(old(self).data(), path@, id),
            final(self).exists_w() == old(self).exists_w(),
            final(self).child() == old(self).child(),
            final(self).persistent() == old(self).persistent(),
            final(self).persistent_recursive() == old(self).persistent_recursive(),
            final(self).auto_reset_disabled() == old(self).auto_reset_disabled(),
    {
        Self::register_watcher(&mut self.data_watches, path, id);
        Ok(())
    }

    /// Registers a one-shot exists watcher.
    pub fn register_exists_watcher(&mut self, path: String, id: u64) -> (r: ZKResult<()>)
        requires
            old(self).wf(),
        ensures
            r is Ok,
            final(self).wf(),
            final(self).exists_w() == reg(old(self).exists_w(), path@, id),
            final(self).data() == old(self).data(),
            final(self).child() == old(self).child(),
            final(self).persistent() == old(self).persistent(),
            final(self).persistent_recursive() == old(self).persistent_recursive(),
            final(self).auto_reset_disabled() == old(self).auto_reset_disabled(),
    {
        Self::register_watcher(&mut self.exists_watches, path, id);
        Ok(())
    }

    /// Registers a one-shot child watcher.
    pub fn register_child_watcher(&mut self, path: String, id: u64) -> (r: ZKResult<()>)
        requires
            old(self).wf(),
        ensures
            r is Ok,
            final(self).wf(),
            final(self).child() == reg(old(self).child(), path@, id),
            final(self).data() == old(self).data(),
            final(self).exists_w() == old(self).exists_w(),
            final(self).persistent() == old(self).persistent(),
            final(self).persistent_recursive() == old(self).persistent_recursive(),
            final(self).auto_reset_disabled() == old(self).auto_reset_disabled(),
    {
        Self::register_watcher(&mut self.child_watches, path, id);
        Ok(())
    }

    /// Registers a persistent watcher, recursive or not.
    pub fn register_persistent_watcher(&mut self, path: String, id: u64, recursive: bool) -> (r:
        ZKResult<()>)
        requires
            old(self).wf(),
        ensures
            r is Ok,
            final(self).wf(),
            recursive ==> final(self).persistent_recursive() == reg(
                old(self).persistent_recursive(),
                path@,
                id,
            ) && final(self).persistent() == old(self).persistent(),
            !recursive ==> final(self).persistent() == reg(old(self).persistent(), path@, id)
                && final(self).persistent_recursive() == old(self).persistent_recursive(),
            final(self).data() == old(self).data(),
            final(self).exists_w() == old(self).exists_w(),
            final(self).child() == old(self).child(),
            final(self).auto_reset_disabled() == old(self).auto_reset_disabled(),
    {
        if recursive {
            Self::register_watcher(&mut self.persistent_recursive_watches, path, id);
        } else {
            Self::register_watcher(&mut self.persistent_watches, path, id);
        }
        Ok(())
    }

    /// Drains one table's entry for `path` into `out`: the ids move, the
    /// entry goes away.
    #[verifier::loop_isolation(false)]
    fn add_watches(watches: &mut Vec<WatchEntry>, path: &String, out: &mut Vec<u64>)
        ensures
            final(out)@ == old(out)@ + lookup(tab_v(old(watches)@), path@),
            tab_v(final(watches)@) == remove_path(tab_v(old(watches)@), path@),
            tab_wf(tab_v(old(watches)@)) ==> tab_wf(tab_v(final(watches)@)),
    {
        let ghost t0 = tab_v(watches@);
        let ghost out0 = out@;
        let mut kept: Vec<WatchEntry> = Vec::new();
        let mut found = false;
        let mut k: usize = 0;
        proof {
            assert(t0.take(0) =~= Seq::<WatchEntryV>::empty());
            assert(tab_v(kept@) =~= Seq::<WatchEntryV>::empty());
        }
        while k < watches.len()
            invariant
                k <= watches@.len(),
                t0 == tab_v(watches@),
                tab_v(kept@) == remove_path(t0.take(k as int), path@),
                found == has_path(t0.take(k as int), path@),
                out@ == out0 + lookup(t0.take(k as int), path@),
            decreases watches@.len() - k,
        {
            proof {
                assert(t0[k as int] == watches@[k as int]@);
                lemma_table_snoc(t0, path@, k as int);
                if !found {
                    lemma_lookup_absent(t0.take(k as int), path@);
                }
            }
            let entry = &watches[k];
            if entry.path.eq(path) {
                if !found {
                    found = true;
                    let mut m: usize = 0;
                    let ghost mid = out@;
                    while m < entry.ids.len()
                        invariant
                            m <= entry.ids@.len(),
                            out@ == mid + entry.ids@.take(m as int),
                        decreases entry.ids@.len() - m,
                    {
                        let ghost before = out@;
                        out.push(entry.ids[m]);
                        proof {
                            assert(out@ =~= mid + entry.ids@.take(m as int + 1));
                        }
                        m += 1;
                    }
                    proof {
                        assert(entry.ids@.take(entry.ids@.len() as int) =~= entry.ids@);
                        assert(out@ =~= out0 + lookup(t0.take(k as int + 1), path@));
                    }
                }
            } else {
                let ghost prev = tab_v(kept@);
                kept.push(clone_entry(entry));
                proof {
                    assert(tab_v(kept@) =~= prev + seq![t0[k as int]]);
                }
            }
            k += 1;
        }
        proof {
            assert(t0.take(t0.len() as int) =~= t0);
            if tab_wf(t0) {
                lemma_remove_path_wf(t0, path@);
            }
        }
        *watches = kept;
    }

    /// Appends to `out` the persistent watchers of `path` and every
    /// recursive watcher registered at `path` or an ancestor of it; the
    /// tables keep their entries.
    #[verifier::loop_isolation(false)]
    pub fn trigger_persistent_watches(&self, path: &String, out: &mut Vec<u64>)
        ensures
            final(out)@ == old(out)@ + lookup(self.persistent(), path@) + rec_ids(
                self.persistent_recursive(),
                path@,
            ),
    {
        let ghost out0 = out@;
        let ghost tp = self.persistent();
        let mut k: usize = 0;
        let mut found = false;
        proof {
            assert(tp.take(0) =~= Seq::<WatchEntryV>::empty());
        }
        while k < self.persistent_watches.len()
            invariant
                k <= self.persistent_watches@.len(),
                found == has_path(tp.take(k as int), path@),
                out@ == out0 + lookup(tp.take(k as int), path@),
            decreases self.persistent_watches@.len() - k,
        {
            proof {
                assert(tp[k as int] == self.persistent_watches@[k as int]@);
                lemma_table_snoc(tp, path@, k as int);
                if !found {
                    lemma_lookup_absent(tp.take(k as int), path@);
                }
            }
            let entry = &self.persistent_watches[k];
            if entry.path.eq(path) {
                if !found {
                    found = true;
                    let mut m: usize = 0;
                    let ghost mid = out@;
                    while m < entry.ids.len()
                        invariant
                            m <= entry.ids@.len(),
                            out@ == mid + entry.ids@.take(m as int),
                        decreases entry.ids@.len() - m,
                    {
                        out.push(entry.ids[m]);
                        proof {
                            assert(out@ =~= mid + entry.ids@.take(m as int + 1));
                        }
                        m += 1;
                    }
                    proof {
                        assert(entry.ids@.take(entry.ids@.len() as int) =~= entry.ids@);
                        assert(out@ =~= out0 + lookup(tp.take(k as int + 1), path@));
                    }
                }
            }
            k += 1;
        }
        proof {
            assert(tp.take(tp.len() as int) =~= tp);
        }
        let ghost tr = self.persistent_recursive();
        let ghost out1 = out@;
        let mut r: usize = 0;
        proof {
            assert(tr.take(0) =~= Seq::<WatchEntryV>::empty());
            assert(out@ =~= out1 + rec_ids(tr.take(0), path@));
        }
        while r < self.persistent_recursive_watches.len()
            invariant
                r <= self.persistent_recursive_watches@.len(),
                out@ == out1 + rec_ids(tr.take(r as int), path@),
            decreases self.persistent_recursive_watches@.len() - r,
        {
            proof {
                assert(tr[r as int] == self.persistent_recursive_watches@[r as int]@);
                lemma_table_snoc(tr, path@, r as int);
            }
            let entry = &self.persistent_recursive_watches[r];
            if rec_match_str(&entry.path, path) {
                let mut m: usize = 0;
                let ghost mid = out@;
                while m < entry.ids.len()
                    invariant
                        m <= entry.ids@.len(),
                        out@ == mid + entry.ids@.take(m as int),
                    decreases entry.ids@.len() - m,
                {
                    out.push(entry.ids[m]);
                    proof {
                        assert(out@ =~= mid + entry.ids@.take(m as int + 1));
                    }
                    m += 1;
                }
                proof {
                    assert(entry.ids@.take(entry.ids@.len() as int) =~= entry.ids@);
                    assert(out@ =~= out1 + (rec_ids(tr.take(r as int), path@) + entry.ids@));
                }
            }
            r += 1;
        }
        proof {
            assert(tr.take(tr.len() as int) =~= tr);
            assert(out@ =~= old(out)@ + lookup(self.persistent(), path@) + rec_ids(
                self.persistent_recursive(),
                path@,
            ));
        }
    }

    /// Appends every id of one table to `out`.
    #[verifier::loop_isolation(false)]
    fn append_all_ids(watches: &Vec<WatchEntry>, out: &mut Vec<u64>)
        ensures
            final(out)@ == old(out)@ + all_ids(tab_v(watches@)),
    {
        let ghost t0 = tab_v(watches@);
        let ghost out0 = out@;
        let mut k: usize = 0;
        proof {
            assert(t0.take(0) =~= Seq::<WatchEntryV>::empty());
            assert(out@ =~= out0 + all_ids(t0.take(0)));
        }
        while k < watches.len()
            invariant
                k <= watches@.len(),
                out@ == out0 + all_ids(t0.take(k as int)),
            decreases watches@.len() - k,
        {
            proof {
                assert(t0[k as int] == watches@[k as int]@);
                lemma_table_snoc(t0, Seq::<char>::empty(), k as int);
            }
            let entry = &watches[k];
            let mut m: usize = 0;
            let ghost mid = out@;
            while m < entry.ids.len()
                invariant
                    m <= entry.ids@.len(),
                    out@ == mid + entry.ids@.take(m as int),
                decreases entry.ids@.len() - m,
            {
                out.push(entry.ids[m]);
                proof {
                    assert(out@ =~= mid + entry.ids@.take(m as int + 1));
                }
                m += 1;
            }
            proof {
                assert(entry.ids@.take(entry.ids@.len() as int) =~= entry.ids@);
                assert(out@ =~= out0 + (all_ids(t0.take(k as int)) + entry.ids@));
            }
            k += 1;
        }
        proof {
            assert(t0.take(t0.len() as int) =~= t0);
        }
    }

    /// The watchers an event fires, in registry order, with the one-shot
    /// entries it consumes removed. A connection-state event always fires
    /// the persistent sets, keeping them; it fires and drops the one-shot
    /// tables only under the configured reset policy, else they stay
    /// registered and silent. A node event drains its one-shot kinds at
    /// the event's path and collects the persistent matches.
    pub fn find_need_triggered_watchers(&mut self, event: &WatchedEvent) -> (r: Vec<u64>)
        requires
            old(self).wf(),
            event.event_type is NoEvent || event.event_type is NodeCreated
                || event.event_type is NodeDataChanged || event.event_type is NodeChildrenChanged
                || event.event_type is NodeDeleted,
        ensures
            final(self).wf(),
            WatcherManager::find_spec(*old(self), *final(self), *event, r@),
    {
        self.find_inner(event)
    }

    /// What one trigger computation does: the relation between the
    /// registry before, the registry after, the event, and the fired
    /// ids.
    pub open spec fn find_spec(
        pre: WatcherManager,
        post: WatcherManager,
        event: WatchedEvent,
        r: Seq<u64>,
    ) -> bool {
        &&& post.persistent() == pre.persistent()
        &&& post.persistent_recursive() == pre.persistent_recursive()
        &&& post.auto_reset_disabled() == pre.auto_reset_disabled()
        &&& (match event.event_type {
                EventType::NoEvent => {
                    let clear = pre.auto_reset_disabled() && event.keep_state
                        != KeeperState::SyncConnected;
                    &&& r == (if clear {
                        all_ids(pre.data()) + all_ids(pre.exists_w()) + all_ids(pre.child())
                    } else {
                        Seq::<u64>::empty()
                    }) + all_ids(pre.persistent()) + all_ids(pre.persistent_recursive())
                    &&& post.data() == if clear {
                        Seq::<WatchEntryV>::empty()
                    } else {
                        pre.data()
                    }
                    &&& post.exists_w() == if clear {
                        Seq::<WatchEntryV>::empty()
                    } else {
                        pre.exists_w()
                    }
                    &&& post.child() == if clear {
                        Seq::<WatchEntryV>::empty()
                    } else {
                        pre.child()
                    }
                },
                EventType::NodeCreated | EventType::NodeDataChanged => {
                    &&& r == lookup(pre.data(), event.path@) + lookup(
                        pre.exists_w(),
                        event.path@,
                    ) + lookup(pre.persistent(), event.path@) + rec_ids(
                        pre.persistent_recursive(),
                        event.path@,
                    )
                    &&& post.data() == remove_path(pre.data(), event.path@)
                    &&& post.exists_w() == remove_path(pre.exists_w(), event.path@)
                    &&& post.child() == pre.child()
                },
                EventType::NodeChildrenChanged => {
                    &&& r == lookup(pre.child(), event.path@) + lookup(
                        pre.persistent(),
                        event.path@,
                    ) + rec_ids(pre.persistent_recursive(), event.path@)
                    &&& post.child() == remove_path(pre.child(), event.path@)
                    &&& post.data() == pre.data()
                    &&& post.exists_w() == pre.exists_w()
                },
                EventType::NodeDeleted => {
                    &&& r == lookup(pre.data(), event.path@) + lookup(
                        pre.exists_w(),
                        event.path@,
                    ) + lookup(pre.child(), event.path@) + lookup(
                        pre.persistent(),
                        event.path@,
                    ) + rec_ids(pre.persistent_recursive(), event.path@)
                    &&& post.data() == remove_path(pre.data(), event.path@)
                    &&& post.exists_w() == remove_path(pre.exists_w(), event.path@)
                    &&& post.child() == remove_path(pre.child(), event.path@)
                },
                _ => false,
            })
    }

    /// Drops the local entries of the requested kind at `path`: the
    /// child kind clears child watchers, the data kind clears data and
    /// exists watchers, and the any kind clears every kind.
    pub fn remove_watches_local(&mut self, path: &String, kind: crate::constants::WatcherType)
        requires
            old(self).wf(),
        ensures
            final(self).wf(),
            final(self).auto_reset_disabled() == old(self).auto_reset_disabled(),
            (match kind {
                crate::constants::WatcherType::Children => {
                    &&& final(self).child() == remove_path(old(self).child(), path@)
                    &&& final(self).data() == old(self).data()
                    &&& final(self).exists_w() == old(self).exists_w()
                    &&& final(self).persistent() == old(self).persistent()
                    &&& final(self).persistent_recursive() == old(self).persistent_recursive()
                },
                crate::constants::WatcherType::Data => {
                    &&& final(self).data() == remove_path(old(self).data(), path@)
                    &&& final(self).exists_w() == remove_path(old(self).exists_w(), path@)
                    &&& final(self).child() == old(self).child()
                    &&& final(self).persistent() == old(self).persistent()
                    &&& final(self).persistent_recursive() == old(self).persistent_recursive()
                },
                crate::constants::WatcherType::Any => {
                    &&& final(self).data() == remove_path(old(self).data(), path@)
                    &&& final(self).exists_w() == remove_path(old(self).exists_w(), path@)
                    &&& final(self).child() == remove_path(old(self).child(), path@)
                    &&& final(self).persistent() == remove_path(old(self).persistent(), path@)
                    &&& final(self).persistent_recursive() == remove_path(
                        old(self).persistent_recursive(),
                        path@,
                    )
                },
            }),
    {
        let mut scratch: Vec<u64> = Vec::new();
        match kind {
            crate::constants::WatcherType::Children => {
                Self::add_watches(&mut self.child_watches, path, &mut scratch);
            },
            crate::constants::WatcherType::Data => {
                Self::add_watches(&mut self.data_watches, path, &mut scratch);
                Self::add_watches(&mut self.exists_watches, path, &mut scratch);
            },
            crate::constants::WatcherType::Any => {
                Self::add_watches(&mut self.data_watches, path, &mut scratch);
                Self::add_watches(&mut self.exists_watches, path, &mut scratch);
                Self::add_watches(&mut self.child_watches, path, &mut scratch);
                Self::add_watches(&mut self.persistent_watches, path, &mut scratch);
                Self::add_watches(&mut self.persistent_recursive_watches, path, &mut scratch);
            },
        }
    }

    fn find_inner(&mut self, event: &WatchedEvent) -> (r: Vec<u64>)
        requires
            old(self).wf(),
            event.event_type is NoEvent || event.event_type is NodeCreated
                || event.event_type is NodeDataChanged || event.event_type is NodeChildrenChanged
                || event.event_type is NodeDeleted,
        ensures
            final(self).wf(),
            WatcherManager::find_spec(*old(self), *final(self), *event, r@),
    {
        let mut watchers: Vec<u64> = Vec::new();
        match event.event_type {
            EventType::NoEvent => {
                let clear = self.disable_auto_watch_reset && event.keep_state
                    != KeeperState::SyncConnected;
                if clear {
                    Self::append_all_ids(&self.data_watches, &mut watchers);
                    Self::append_all_ids(&self.exists_watches, &mut watchers);
                    Self::append_all_ids(&self.child_watches, &mut watchers);
                    self.data_watches = Vec::new();
                    self.exists_watches = Vec::new();
                    self.child_watches = Vec::new();
                    proof {
                        assert(self.data() =~= Seq::<WatchEntryV>::empty());
                        assert(self.exists_w() =~= Seq::<WatchEntryV>::empty());
                        assert(self.child() =~= Seq::<WatchEntryV>::empty());
                    }
                }
                Self::append_all_ids(&self.persistent_watches, &mut watchers);
                Self::append_all_ids(&self.persistent_recursive_watches, &mut watchers);
                proof {
                    if !clear {
                        assert(watchers@ =~= Seq::<u64>::empty() + all_ids(
                            old(self).persistent(),
                        ) + all_ids(old(self).persistent_recursive()));
                    }
                }
            },
            EventType::NodeCreated | EventType::NodeDataChanged => {
                Self::add_watches(&mut self.data_watches, &event.path, &mut watchers);
                Self::add_watches(&mut self.exists_watches, &event.path, &mut watchers);
                self.trigger_persistent_watches(&event.path, &mut watchers);
            },
            EventType::NodeChildrenChanged => {
                Self::add_watches(&mut self.child_watches, &event.path, &mut watchers);
                self.trigger_persistent_watches(&event.path, &mut watchers);
            },
            EventType::NodeDeleted => {
                Self::add_watches(&mut self.data_watches, &event.path, &mut watchers);
                Self::add_watches(&mut self.exists_watches, &event.path, &mut watchers);
                Self::add_watches(&mut self.child_watches, &event.path, &mut watchers);
                self.trigger_persistent_watches(&event.path, &mut watchers);
            },
            _ => {
                proof {
                    assert(false);
                }
            },
        }
        watchers
    }
}

} // verus!
