//! The decisions of the file watcher: which workspace a changed path
//! belongs to, which paths to watch, what each file-system event asks of
//! the index, and the queue that holds created or modified paths until
//! they have been quiet for the debounce interval.
use vstd::prelude::*;

use crate::models::{AppConfig, WorkspaceConfig};
#[allow(unused_imports)]
use crate::text::starts_with;

verus! {

/// How long a created or modified path must stay quiet before it is indexed.
pub const DEBOUNCE_MS: u64 = 500;

/// How long the event loop waits for an event before it flushes the queue.
pub const POLL_INTERVAL_MS: u64 = 200;

// ---------------------------------------------------------------------------
// Workspaces of paths
// ---------------------------------------------------------------------------
/// The first enabled workspace whose path is a prefix of `path`.
pub open spec fn workspace_for(ws: Seq<WorkspaceConfig>, path: Seq<char>) -> Option<WorkspaceConfig>
    decreases ws.len(),
{
    if ws.len() == 0 {
        None
    } else if ws[0].enabled && starts_with(path, ws[0].path@) {
        Some(ws[0])
    } else {
        workspace_for(ws.drop_first(), path)
    }
}

/// The enabled workspace that a changed path belongs to.
pub fn find_workspace_for_path(config: &AppConfig, path: &str) -> (r: Option<WorkspaceConfig>)
    ensures
        r == workspace_for(config.workspaces@, path@),
{
    let v = crate::text::chars_of(path);
    let ghost ws = config.workspaces@;
    let mut i: usize = 0;
    assert(ws.skip(0) == ws);
    while i < config.workspaces.len()
        invariant
            ws == config.workspaces@,
            v@ == path@,
            i <= ws.len(),
            workspace_for(ws, path@) == workspace_for(ws.skip(i as int), path@),
        decreases ws.len() - i,
    {
        let w = &config.workspaces[i];
        let prefix = crate::text::chars_of(w.path.as_str());
        proof {
            assert(ws.skip(i as int)[0] == *w);
            assert(ws.skip(i as int).drop_first() == ws.skip(i + 1));
            assert(v@.subrange(0, v@.len() as int) == v@);
        }
        if w.enabled && crate::text::range_starts_with(&v, 0, v.len(), &prefix) {
            return Some(w.clone());
        }
        i += 1;
    }
    assert(ws.skip(ws.len() as int) =~= Seq::<WorkspaceConfig>::empty());
    None
}

/// The workspace that a ready path is indexed into: none for a directory,
/// else that of `find_workspace_for_path`.
pub fn flush_target(config: &AppConfig, path: &str, is_dir: bool) -> (r: Option<WorkspaceConfig>)
    ensures
        is_dir ==> r is None,
        !is_dir ==> r == workspace_for(config.workspaces@, path@),
{
    if is_dir {
        None
    } else {
        find_workspace_for_path(config, path)
    }
}

/// The paths to watch: those of the enabled workspaces.
pub open spec fn watched_paths(ws: Seq<WorkspaceConfig>) -> Set<Seq<char>> {
    Set::new(|p: Seq<char>| exists|i: int| 0 <= i < ws.len() && ws[i].enabled && #[trigger] ws[i].path@ == p)
}

/// No path occurs twice.
pub open spec fn no_duplicates(ps: Seq<Seq<char>>) -> bool {
    forall|i: int, j: int| 0 <= i < j < ps.len() ==> #[trigger] ps[i] != #[trigger] ps[j]
}

/// The paths of the enabled workspaces, in configuration order.
pub open spec fn enabled_paths(ws: Seq<WorkspaceConfig>) -> Seq<Seq<char>>
    decreases ws.len(),
{
    if ws.len() == 0 {
        seq![]
    } else if ws.last().enabled {
        enabled_paths(ws.drop_last()).push(ws.last().path@)
    } else {
        enabled_paths(ws.drop_last())
    }
}

/// `s` with each element kept at its first occurrence only.
pub open spec fn first_occurrences(s: Seq<Seq<char>>) -> Seq<Seq<char>>
    decreases s.len(),
{
    if s.len() == 0 {
        seq![]
    } else {
        let d = first_occurrences(s.drop_last());
        if d.contains(s.last()) {
            d
        } else {
            d.push(s.last())
        }
    }
}

/// The paths of the enabled workspaces, each once, in configuration order.
pub fn desired_watch_paths(config: &AppConfig) -> (out: Vec<String>)
    ensures
        out.deep_view() == first_occurrences(enabled_paths(config.workspaces@)),
        no_duplicates(out.deep_view()),
        out.deep_view().to_set() == watched_paths(config.workspaces@),
{
    let ghost ws = config.workspaces@;
    let mut out: Vec<String> = Vec::new();
    let mut i: usize = 0;
    while i < config.workspaces.len()
        invariant
            ws == config.workspaces@,
            i <= ws.len(),
            out.deep_view() == first_occurrences(enabled_paths(ws.take(i as int))),
            no_duplicates(out.deep_view()),
            out.deep_view().to_set() == watched_paths(ws.take(i as int)),
        decreases ws.len() - i,
    {
        let w = &config.workspaces[i];
        let ghost before = out.deep_view();
        if w.enabled {
            let mut seen = false;
            let mut j: usize = 0;
            while j < out.len()
                invariant
                    j <= out@.len(),
                    before == out.deep_view(),
                    seen ==> before.contains(w.path@),
                    !seen ==> forall|k: int| 0 <= k < j ==> before[k] != w.path@,
                decreases out@.len() - j,
            {
                if out[j] == w.path {
                    proof {
                        assert(before[j as int] == out@[j as int]@);
                    }
                    seen = true;
                }
                proof {
                    assert(before[j as int] == out@[j as int]@);
                }
                j += 1;
            }
            proof {
                if !seen && before.contains(w.path@) {
                    let k = choose|k: int| 0 <= k < before.len() && before[k] == w.path@;
                    assert(before[k] != w.path@);
                }
            }
            if !seen {
                out.push(w.path.clone());
                proof {
                    assert(out.deep_view() =~= before.push(w.path@));
                }
            }
        }
        proof {
            let after = out.deep_view();
            assert(ws.take(i + 1) == ws.take(i as int).push(*w));
            assert(ws.take(i + 1).drop_last() == ws.take(i as int));
            let t0 = ws.take(i as int);
            let t1 = ws.take(i + 1);
            assert(t1.last() == *w);
            if w.enabled {
                assert(enabled_paths(t1) == enabled_paths(t0).push(w.path@));
                assert(before == first_occurrences(enabled_paths(t0)));
                assert(enabled_paths(t1).drop_last() == enabled_paths(t0));
                assert(enabled_paths(t1).last() == w.path@);
                assert(first_occurrences(enabled_paths(t1)) == if before.contains(w.path@) {
                    before
                } else {
                    before.push(w.path@)
                });
            } else {
                assert(enabled_paths(t1) == enabled_paths(t0));
            }
            assert forall|p: Seq<char>| after.to_set().contains(p) <==> watched_paths(ws.take(i + 1)).contains(p) by {
                let t0 = ws.take(i as int);
                let t1 = ws.take(i + 1);
                if after.to_set().contains(p) {
                    let k = choose|k: int| 0 <= k < after.len() && after[k] == p;
                    if k < before.len() {
                        assert(before.to_set().contains(p));
                        let m = choose|m: int| 0 <= m < t0.len() && t0[m].enabled && #[trigger] t0[m].path@ == p;
                        assert(t1[m] == t0[m]);
                    } else {
                        assert(t1[i as int] == *w);
                    }
                }
                if watched_paths(t1).contains(p) {
                    let m = choose|m: int| 0 <= m < t1.len() && t1[m].enabled && #[trigger] t1[m].path@ == p;
                    if m < i {
                        assert(t0[m] == t1[m]);
                        assert(watched_paths(t0).contains(p));
                        assert(before.to_set().contains(p));
                        let k = choose|k: int| 0 <= k < before.len() && before[k] == p;
                        assert(after[k] == p);
                    } else {
                        if before.contains(p) {
                            let k = choose|k: int| 0 <= k < before.len() && before[k] == p;
                            assert(after[k] == p);
                        } else {
                            assert(after.last() == p);
                        }
                    }
                }
            }
            assert(after.to_set() =~= watched_paths(ws.take(i + 1)));
        }
        i += 1;
    }
    assert(ws.take(ws.len() as int) == ws);
    out
}

// ---------------------------------------------------------------------------
// The queue of changed paths
// ---------------------------------------------------------------------------
/// Paths created or modified, each with the time of its latest change.
pub struct PendingChanges {
    entries: Vec<(String, u64)>,
}

/// Has a path changed at `at` been quiet for `debounce` at time `now`?
pub open spec fn is_ready(at: u64, now: u64, debounce: u64) -> bool {
    (if now >= at {
        now - at
    } else {
        0
    }) >= debounce
}

/// No path occurs in two entries.
pub open spec fn entry_keys_distinct(es: Seq<(String, u64)>) -> bool {
    forall|i: int, j: int| 0 <= i < j < es.len() ==> #[trigger] es[i].0@ != #[trigger] es[j].0@
}

/// Some entry is for path `k`.
pub open spec fn entry_has(es: Seq<(String, u64)>, k: Seq<char>) -> bool {
    exists|i: int| 0 <= i < es.len() && #[trigger] es[i].0@ == k
}

/// The time of each path's entry.
pub open spec fn entries_view(es: Seq<(String, u64)>) -> Map<Seq<char>, u64> {
    Map::new(
        |k: Seq<char>| entry_has(es, k),
        |k: Seq<char>| es[choose|i: int| 0 <= i < es.len() && #[trigger] es[i].0@ == k].1,
    )
}

proof fn lemma_entry_value(es: Seq<(String, u64)>, i: int)
    requires
        entry_keys_distinct(es),
        0 <= i < es.len(),
    ensures
        entries_view(es).dom().contains(es[i].0@),
        entries_view(es)[es[i].0@] == es[i].1,
{
    let k = es[i].0@;
    assert(entry_has(es, k));
    let j = choose|j: int| 0 <= j < es.len() && #[trigger] es[j].0@ == k;
    if j != i {
        if j < i {
            assert(es[j].0@ != es[i].0@);
        } else {
            assert(es[i].0@ != es[j].0@);
        }
    }
}

/// The pending paths that are ready at `now`.
pub open spec fn ready_paths(m: Map<Seq<char>, u64>, now: u64, debounce: u64) -> Set<Seq<char>> {
    m.dom().filter(|k: Seq<char>| is_ready(m[k], now, debounce))
}

/// The pending paths, with their times, that stay pending at `now`.
pub open spec fn still_pending(m: Map<Seq<char>, u64>, now: u64, debounce: u64) -> Map<
    Seq<char>,
    u64,
> {
    m.restrict(m.dom().filter(|k: Seq<char>| !is_ready(m[k], now, debounce)))
}

spec fn in_idx(idx: Seq<int>, j: int) -> bool {
    exists|a: int| 0 <= a < idx.len() && #[trigger] idx[a] == j
}

spec fn covered(keep: Seq<int>, ready: Seq<int>, j: int) -> bool {
    in_idx(keep, j) || in_idx(ready, j)
}

impl View for PendingChanges {
    type V = Map<Seq<char>, u64>;

    /// The latest change time of each pending path.
    closed spec fn view(&self) -> Map<Seq<char>, u64> {
        entries_view(self.entries@)
    }
}

impl PendingChanges {
    #[verifier::type_invariant]
    spec fn keys_distinct(&self) -> bool {
        entry_keys_distinct(self.entries@)
    }

    pub fn new() -> (q: Self)
        ensures
            q@ == Map::<Seq<char>, u64>::empty(),
    {
        let q = PendingChanges { entries: Vec::new() };
        assert(q@ =~= Map::<Seq<char>, u64>::empty());
        q
    }

    /// The number of pending paths.
    pub fn len(&self) -> (n: usize)
        ensures
            n == self@.len(),
    {
        proof {
            use_type_invariant(self);
            self.lemma_len();
        }
        self.entries.len()
    }

    proof fn lemma_len(&self)
        requires
            entry_keys_distinct(self.entries@),
        ensures
            self@.dom().finite(),
            self@.len() == self.entries@.len(),
        decreases self.entries@.len(),
    {
        let es = self.entries@;
        let keys = es.map_values(|e: (String, u64)| e.0@);
        assert(self@.dom() =~= keys.to_set()) by {
            assert forall|k: Seq<char>| self@.dom().contains(k) implies keys.to_set().contains(k) by {
                let i = choose|i: int| 0 <= i < es.len() && #[trigger] es[i].0@ == k;
                assert(keys[i] == k);
            }
            assert forall|k: Seq<char>| keys.to_set().contains(k) implies self@.dom().contains(k) by {
                let i = choose|i: int| 0 <= i < keys.len() && keys[i] == k;
                assert(es[i].0@ == k);
            }
        }
        assert(keys.no_duplicates()) by {
            assert forall|i: int, j: int| 0 <= i < keys.len() && 0 <= j < keys.len() && i != j implies keys[i] != keys[j] by {
                if i < j {
                    assert(es[i].0@ != es[j].0@);
                } else {
                    assert(es[j].0@ != es[i].0@);
                }
            }
        }
        keys.unique_seq_to_set();
    }

    /// Records that `path` changed at `at`: its pending time becomes `at`.
    pub fn record(&mut self, path: String, at: u64)
        ensures
            final(self)@ == old(self)@.insert(path@, at),
    {
        proof {
            use_type_invariant(&*self);
        }
        let ghost es = self.entries@;
        let mut i: usize = 0;
        while i < self.entries.len()
            invariant
                es == self.entries@,
                entries_view(es) == old(self)@,
                entry_keys_distinct(es),
                i <= es.len(),
                forall|j: int| 0 <= j < i ==> es[j].0@ != path@,
            decreases es.len() - i,
        {
            if self.entries[i].0 == path {
                let mut entries: Vec<(String, u64)> = Vec::new();
                std::mem::swap(&mut entries, &mut self.entries);
                entries.set(i, (path, at));
                let ghost es2 = entries@;
                proof {
                    assert(es[i as int].0@ == path@);
                    assert(es2[i as int].0@ == path@);
                    assert(es2 == es.update(i as int, (es2[i as int].0, at)));
                    assert(entry_keys_distinct(es2)) by {
                        assert forall|a: int, b: int| 0 <= a < b < es2.len() implies #[trigger] es2[a].0@ != #[trigger] es2[b].0@ by {
                            assert(es[a].0@ != es[b].0@);
                        }
                    }
                    assert forall|k: Seq<char>| #![auto] entries_view(es2).dom().contains(k) == old(self)@.insert(path@, at).dom().contains(k) by {
                        if k == path@ {
                            assert(es2[i as int].0@ == k);
                            assert(es[i as int].0@ == k);
                        }
                        if entry_has(es, k) {
                            let j = choose|j: int| 0 <= j < es.len() && #[trigger] es[j].0@ == k;
                            assert(es2[j].0@ == k);
                        }
                        if entry_has(es2, k) {
                            let j = choose|j: int| 0 <= j < es2.len() && #[trigger] es2[j].0@ == k;
                            assert(es[j].0@ == k);
                        }
                    }
                    assert forall|k: Seq<char>| #![auto] entries_view(es2).dom().contains(k) implies entries_view(es2)[k] == old(self)@.insert(path@, at)[k] by {
                        let j = choose|j: int| 0 <= j < es2.len() && #[trigger] es2[j].0@ == k;
                        lemma_entry_value(es2, j);
                        if j != i {
                            lemma_entry_value(es, j);
                            if j < i {
                                assert(es[j].0@ != es[i as int].0@);
                            } else {
                                assert(es[i as int].0@ != es[j].0@);
                            }
                        }
                    }
                    assert(entries_view(es2) =~= old(self)@.insert(path@, at));
                }
                self.entries = entries;
                return;
            }
            i += 1;
        }
        let ghost p = path@;
        let mut entries: Vec<(String, u64)> = Vec::new();
        std::mem::swap(&mut entries, &mut self.entries);
        entries.push((path, at));
        let ghost es2 = entries@;
        proof {
            assert(es2 == es.push((es2.last().0, at)));
            assert(entry_keys_distinct(es2)) by {
                assert forall|a: int, b: int| 0 <= a < b < es2.len() implies #[trigger] es2[a].0@ != #[trigger] es2[b].0@ by {
                    if b < es.len() {
                        assert(es[a].0@ != es[b].0@);
                    }
                }
            }
            assert forall|k: Seq<char>| #![auto] entries_view(es2).dom().contains(k) == old(self)@.insert(p, at).dom().contains(k) by {
                if entry_has(es, k) {
                    let j = choose|j: int| 0 <= j < es.len() && #[trigger] es[j].0@ == k;
                    assert(es2[j].0@ == k);
                }
                if k == p {
                    assert(es2[es.len() as int].0@ == k);
                }
                if entry_has(es2, k) {
                    let j = choose|j: int| 0 <= j < es2.len() && #[trigger] es2[j].0@ == k;
                    if j < es.len() {
                        assert(es[j].0@ == k);
                    }
                }
            }
            assert forall|k: Seq<char>| #![auto] entries_view(es2).dom().contains(k) implies entries_view(es2)[k] == old(self)@.insert(p, at)[k] by {
                let j = choose|j: int| 0 <= j < es2.len() && #[trigger] es2[j].0@ == k;
                lemma_entry_value(es2, j);
                if j < es.len() {
                    lemma_entry_value(es, j);
                }
            }
            assert(entries_view(es2) =~= old(self)@.insert(p, at));
        }
        self.entries = entries;
    }

    /// Removes and returns the paths that have been quiet for `debounce`
    /// at time `now`; the others stay pending.
    pub fn take_ready(&mut self, now: u64, debounce: u64) -> (ready: Vec<String>)
        ensures
            no_duplicates(ready.deep_view()),
            ready.deep_view().to_set() == ready_paths(old(self)@, now, debounce),
            final(self)@ == still_pending(old(self)@, now, debounce),
    {
        proof {
            use_type_invariant(&*self);
        }
        let ghost es = self.entries@;
        let ghost m = self@;
        let mut entries: Vec<(String, u64)> = Vec::new();
        std::mem::swap(&mut entries, &mut self.entries);
        let mut keep: Vec<(String, u64)> = Vec::new();
        let mut ready: Vec<String> = Vec::new();
        let ghost mut keep_idx: Seq<int> = Seq::empty();
        let ghost mut ready_idx: Seq<int> = Seq::empty();
        let mut i: usize = 0;
        while i < entries.len()
            invariant
                entries@ == es,
                m == entries_view(es),
                entry_keys_distinct(es),
                i <= es.len(),
                keep@.len() == keep_idx.len(),
                ready@.len() == ready_idx.len(),
                forall|a: int| 0 <= a < keep_idx.len() ==> 0 <= #[trigger] keep_idx[a] < i && keep@[a] == es[keep_idx[a]] && !is_ready(es[keep_idx[a]].1, now, debounce),
                forall|a: int| 0 <= a < ready_idx.len() ==> 0 <= #[trigger] ready_idx[a] < i && ready@[a]@ == es[ready_idx[a]].0@ && is_ready(es[ready_idx[a]].1, now, debounce),
                forall|a: int, b: int| 0 <= a < b < keep_idx.len() ==> #[trigger] keep_idx[a] < #[trigger] keep_idx[b],
                forall|a: int, b: int| 0 <= a < b < ready_idx.len() ==> #[trigger] ready_idx[a] < #[trigger] ready_idx[b],
                forall|j: int| 0 <= j < i ==> #[trigger] covered(keep_idx, ready_idx, j),
            decreases es.len() - i,
        {
            let ghost old_keep = keep_idx;
            let ghost old_ready = ready_idx;
            let p = entries[i].0.clone();
            let at = entries[i].1;
            if (if now >= at { now - at } else { 0 }) >= debounce {
                ready.push(p);
                proof {
                    ready_idx = ready_idx.push(i as int);
                }
            } else {
                keep.push((p, at));
                proof {
                    keep_idx = keep_idx.push(i as int);
                }
            }
            proof {
                assert forall|j: int| 0 <= j < i + 1 implies #[trigger] covered(keep_idx, ready_idx, j) by {
                    if j < i {
                        assert(covered(old_keep, old_ready, j));
                        if in_idx(old_keep, j) {
                            let a = choose|a: int| 0 <= a < old_keep.len() && #[trigger] old_keep[a] == j;
                            assert(keep_idx[a] == j);
                        } else {
                            let a = choose|a: int| 0 <= a < old_ready.len() && #[trigger] old_ready[a] == j;
                            assert(ready_idx[a] == j);
                        }
                    }
                    if j == i {
                        if is_ready(es[i as int].1, now, debounce) {
                            assert(ready_idx[ready_idx.len() - 1] == j);
                        } else {
                            assert(keep_idx[keep_idx.len() - 1] == j);
                        }
                    }
                }
            }
            i += 1;
        }
        proof {
            let kv = keep@;
            let rv = ready.deep_view();
            // Keys of kept entries stay distinct.
            assert(entry_keys_distinct(kv)) by {
                assert forall|a: int, b: int| 0 <= a < b < kv.len() implies #[trigger] kv[a].0@ != #[trigger] kv[b].0@ by {
                    assert(keep_idx[a] < keep_idx[b]);
                }
            }
            assert(no_duplicates(rv)) by {
                assert forall|a: int, b: int| 0 <= a < b < rv.len() implies #[trigger] rv[a] != #[trigger] rv[b] by {
                    assert(ready_idx[a] < ready_idx[b]);
                    assert(rv[a] == ready@[a]@);
                    assert(rv[b] == ready@[b]@);
                }
            }
            let rset = m.dom().filter(|k: Seq<char>| is_ready(m[k], now, debounce));
            let kset = m.dom().filter(|k: Seq<char>| !is_ready(m[k], now, debounce));
            assert forall|k: Seq<char>| #![auto] rv.to_set().contains(k) == rset.contains(k) by {
                if rv.to_set().contains(k) {
                    let a = choose|a: int| 0 <= a < rv.len() && rv[a] == k;
                    assert(rv[a] == ready@[a]@);
                    lemma_entry_value(es, ready_idx[a]);
                }
                if rset.contains(k) {
                    let j = choose|j: int| 0 <= j < es.len() && #[trigger] es[j].0@ == k;
                    lemma_entry_value(es, j);
                    assert(covered(keep_idx, ready_idx, j));
                    if in_idx(keep_idx, j) {
                        let a = choose|a: int| 0 <= a < keep_idx.len() && #[trigger] keep_idx[a] == j;
                        assert(false);
                    } else {
                        let a = choose|a: int| 0 <= a < ready_idx.len() && #[trigger] ready_idx[a] == j;
                        assert(rv[a] == ready@[a]@);
                        assert(rv[a] == k);
                    }
                }
            }
            assert(rv.to_set() =~= rset);
            assert forall|k: Seq<char>| #![auto] entries_view(kv).dom().contains(k) == kset.contains(k) by {
                if entry_has(kv, k) {
                    let a = choose|a: int| 0 <= a < kv.len() && #[trigger] kv[a].0@ == k;
                    lemma_entry_value(es, keep_idx[a]);
                }
                if kset.contains(k) {
                    let j = choose|j: int| 0 <= j < es.len() && #[trigger] es[j].0@ == k;
                    lemma_entry_value(es, j);
                    assert(covered(keep_idx, ready_idx, j));
                    if in_idx(ready_idx, j) {
                        let a = choose|a: int| 0 <= a < ready_idx.len() && #[trigger] ready_idx[a] == j;
                        assert(false);
                    } else {
                        let a = choose|a: int| 0 <= a < keep_idx.len() && #[trigger] keep_idx[a] == j;
                        assert(kv[a].0@ == k);
                    }
                }
            }
            assert forall|k: Seq<char>| #![auto] entries_view(kv).dom().contains(k) implies entries_view(kv)[k] == m.restrict(kset)[k] by {
                let a = choose|a: int| 0 <= a < kv.len() && #[trigger] kv[a].0@ == k;
                lemma_entry_value(kv, a);
                lemma_entry_value(es, keep_idx[a]);
            }
            assert(m.restrict(kset).dom() =~= kset);
            assert(entries_view(kv) =~= m.restrict(kset));
        }
        self.entries = keep;
        ready
    }
}

/// A path recorded at `at` is not taken before it has been quiet for
/// `debounce`: a flush at `now < at + debounce` keeps it pending with its
/// time; a flush at `now >= at + debounce` takes it and leaves it no
/// longer pending. Every pending path is either taken or kept.
pub proof fn lemma_debounce(m: Map<Seq<char>, u64>, path: Seq<char>, at: u64, now: u64, debounce: u64)
    requires
        at <= now,
    ensures
        now < at + debounce ==> !ready_paths(m.insert(path, at), now, debounce).contains(path)
            && still_pending(m.insert(path, at), now, debounce).dom().contains(path)
            && still_pending(m.insert(path, at), now, debounce)[path] == at,
        now >= at + debounce ==> ready_paths(m.insert(path, at), now, debounce).contains(path)
            && !still_pending(m.insert(path, at), now, debounce).dom().contains(path),
        ready_paths(m, now, debounce) + still_pending(m, now, debounce).dom() == m.dom(),
        ready_paths(m, now, debounce).disjoint(still_pending(m, now, debounce).dom()),
{
    assert(ready_paths(m, now, debounce) + still_pending(m, now, debounce).dom() =~= m.dom());
}

/// A changed path is only ever indexed into an enabled workspace whose path
/// is a prefix of it.
pub proof fn lemma_workspace_for_enabled(ws: Seq<WorkspaceConfig>, path: Seq<char>)
    ensures
        workspace_for(ws, path) matches Some(w) ==> w.enabled && starts_with(path, w.path@)
            && ws.contains(w),
    decreases ws.len(),
{
    if ws.len() > 0 && !(ws[0].enabled && starts_with(path, ws[0].path@)) {
        lemma_workspace_for_enabled(ws.drop_first(), path);
        if workspace_for(ws, path) is Some {
            let w = workspace_for(ws, path)->0;
            let i = choose|i: int| 0 <= i < ws.drop_first().len() && ws.drop_first()[i] == w;
            assert(ws[i + 1] == w);
        }
    }
}

// ---------------------------------------------------------------------------
// File-system events
// ---------------------------------------------------------------------------
/// The kinds of file-system event that the watcher tells apart.
#[derive(Debug, Clone, Copy, PartialEq, Eq, Structural)]
pub enum FsEventKind {
    /// A rename that reports the old and the new path.
    RenameBoth,
    Remove,
    /// A creation, or a modification other than such a rename.
    CreateOrModify,
    Other,
}

pub struct FsEvent {
    pub kind: FsEventKind,
    pub paths: Vec<String>,
}

/// What an event asks of the index.
pub enum WatchAction {
    Rename { workspace: WorkspaceConfig, old_path: String, new_path: String },
    Remove { path: String },
}

/// `m` with each of `paths` recorded at `at`.
pub open spec fn record_all(m: Map<Seq<char>, u64>, paths: Seq<Seq<char>>, at: u64) -> Map<
    Seq<char>,
    u64,
>
    decreases paths.len(),
{
    if paths.len() == 0 {
        m
    } else {
        record_all(m, paths.drop_last(), at).insert(paths.last(), at)
    }
}

/// The workspace of a rename: that of the new path, else that of the old one.
pub open spec fn rename_workspace(ws: Seq<WorkspaceConfig>, old_path: Seq<char>, new_path: Seq<char>) -> Option<WorkspaceConfig> {
    match workspace_for(ws, new_path) {
        Some(w) => Some(w),
        None => workspace_for(ws, old_path),
    }
}

/// The workspace that a path belongs to is the first enabled workspace in
/// the configuration whose path is a prefix of it; a path that no enabled
/// workspace holds belongs to none.
pub proof fn lemma_workspace_for_is_first_match(ws: Seq<WorkspaceConfig>, path: Seq<char>, i: int)
    ensures
        0 <= i < ws.len() && ws[i].enabled && starts_with(path, ws[i].path@) && (forall|j: int|
            0 <= j < i ==> !(#[trigger] ws[j].enabled && starts_with(path, ws[j].path@)))
            ==> workspace_for(ws, path) == Some(ws[i]),
        (forall|j: int| 0 <= j < ws.len() ==> !(#[trigger] ws[j].enabled && starts_with(path, ws[j].path@)))
            ==> workspace_for(ws, path) is None,
    decreases ws.len(),
{
    if ws.len() > 0 {
        let tail = ws.drop_first();
        lemma_workspace_for_is_first_match(tail, path, i - 1);
        if 0 < i < ws.len() && ws[i].enabled && starts_with(path, ws[i].path@) && (forall|j: int|
            0 <= j < i ==> !(#[trigger] ws[j].enabled && starts_with(path, ws[j].path@))) {
            assert(!(ws[0].enabled && starts_with(path, ws[0].path@)));
            assert(tail[i - 1] == ws[i]);
            assert forall|j: int| 0 <= j < i - 1 implies !(#[trigger] tail[j].enabled && starts_with(
                path,
                tail[j].path@,
            )) by {
                assert(tail[j] == ws[j + 1]);
            }
        }
        if forall|j: int| 0 <= j < ws.len() ==> !(#[trigger] ws[j].enabled && starts_with(path, ws[j].path@)) {
            assert(!(ws[0].enabled && starts_with(path, ws[0].path@)));
            assert forall|j: int| 0 <= j < tail.len() implies !(#[trigger] tail[j].enabled && starts_with(
                path,
                tail[j].path@,
            )) by {
                assert(tail[j] == ws[j + 1]);
            }
        }
    }
}

/// A renamed file belongs to the workspace of its new path, whatever the
/// workspace of its old path: where the new path lies in an enabled
/// workspace (the first one in the configuration that holds it), the rename
/// is passed on with that workspace; only where no enabled workspace holds
/// the new path does the old path's workspace count.
pub proof fn lemma_rename_follows_new_path(
    ws: Seq<WorkspaceConfig>,
    old_path: Seq<char>,
    new_path: Seq<char>,
    i: int,
)
    ensures
        0 <= i < ws.len() && ws[i].enabled && starts_with(new_path, ws[i].path@) && (forall|j: int|
            0 <= j < i ==> !(#[trigger] ws[j].enabled && starts_with(new_path, ws[j].path@)))
            ==> rename_workspace(ws, old_path, new_path) == Some(ws[i]),
        (forall|j: int| 0 <= j < ws.len() ==> !(#[trigger] ws[j].enabled && starts_with(new_path, ws[j].path@)))
            ==> rename_workspace(ws, old_path, new_path) == workspace_for(ws, old_path),
{
    lemma_workspace_for_is_first_match(ws, new_path, i);
}

/// Handles one file-system event at time `now`: a rename that reports both
/// paths is passed on to the index if either path lies in an enabled
/// workspace; each removed path is removed from the index; created and
/// modified paths (and a rename that reports fewer than two paths) are
/// queued; other events are ignored.
pub fn handle_raw_event(
    config: &AppConfig,
    pending: &mut PendingChanges,
    event: FsEvent,
    now: u64,
) -> (actions: Vec<WatchAction>)
    ensures
        ({
            let paths = event.paths.deep_view();
            if event.kind == FsEventKind::RenameBoth && paths.len() >= 2 {
                &&& final(pending)@ == old(pending)@
                &&& match rename_workspace(config.workspaces@, paths[0], paths[1]) {
                    Some(w) => actions@.len() == 1 && (actions@[0] matches WatchAction::Rename {
                        workspace,
                        old_path,
                        new_path,
                    } && workspace == w && old_path@ == paths[0] && new_path@ == paths[1]),
                    None => actions@.len() == 0,
                }
            } else if event.kind == FsEventKind::Remove {
                &&& final(pending)@ == old(pending)@
                &&& actions@.len() == paths.len()
                &&& forall|i: int| 0 <= i < paths.len() ==> (#[trigger] actions@[i] matches WatchAction::Remove { path } && path@ == paths[i])
            } else if event.kind == FsEventKind::Other {
                &&& final(pending)@ == old(pending)@
                &&& actions@.len() == 0
            } else {
                &&& final(pending)@ == record_all(old(pending)@, paths, now)
                &&& actions@.len() == 0
            }
        }),
{
    let ghost paths = event.paths.deep_view();
    let mut actions: Vec<WatchAction> = Vec::new();
    if event.kind == FsEventKind::RenameBoth && event.paths.len() >= 2 {
        let old_path = event.paths[0].clone();
        let new_path = event.paths[1].clone();
        let found = match find_workspace_for_path(config, new_path.as_str()) {
            Some(w) => Some(w),
            None => find_workspace_for_path(config, old_path.as_str()),
        };
        if let Some(workspace) = found {
            actions.push(WatchAction::Rename { workspace, old_path, new_path });
        }
        return actions;
    }
    match event.kind {
        FsEventKind::Remove => {
            let mut i: usize = 0;
            while i < event.paths.len()
                invariant
                    paths == event.paths.deep_view(),
                    i <= paths.len(),
                    actions@.len() == i,
                    forall|j: int| 0 <= j < i ==> (#[trigger] actions@[j] matches WatchAction::Remove { path } && path@ == paths[j]),
                decreases paths.len() - i,
            {
                actions.push(WatchAction::Remove { path: event.paths[i].clone() });
                i += 1;
            }
        },
        FsEventKind::Other => {},
        _ => {
            let mut i: usize = 0;
            while i < event.paths.len()
                invariant
                    paths == event.paths.deep_view(),
                    i <= paths.len(),
                    actions@.len() == 0,
                    pending@ == record_all(old(pending)@, paths.take(i as int), now),
                decreases paths.len() - i,
            {
                pending.record(event.paths[i].clone(), now);
                proof {
                    assert(paths.take(i + 1).drop_last() == paths.take(i as int));
                }
                i += 1;
            }
            assert(paths.take(paths.len() as int) == paths);
        },
    }
    actions
}

} // verus!
